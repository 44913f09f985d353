use vstd::prelude::*;

use crate::error::AppError;
use crate::order::{lemma_lex_total, lemma_lex_trans, lex_le, lex_le_str};
use crate::sandbox::{join_path, join_spec, relative_of, to_relative_string};

verus! {

/// The deepest level that a listing descends to; the root's own entries are
/// at depth 0.
pub const MAX_TREE_DEPTH: usize = 8;

/// One file or directory of a project listing.
#[derive(Debug)]
pub struct ProjectFileEntry {
    pub name: String,
    /// Relative to the project root, with forward slashes.
    pub path: String,
    pub is_directory: bool,
    /// Present only for a directory with listed contents.
    pub children: Option<Vec<ProjectFileEntry>>,
}

/// One entry of a directory as read from disk, with the listing of its own
/// contents already built (empty for a file).
#[derive(Debug)]
pub struct DirItem {
    pub name: String,
    pub is_dir: bool,
    pub children: Vec<ProjectFileEntry>,
}

/// What `str::to_lowercase` makes of a string.
pub uninterp spec fn lower_of(s: Seq<char>) -> Seq<char>;

/// Relies on `str::to_lowercase`: the result depends on the characters alone.
#[verifier::external_body]
fn lowercase(s: &str) -> (r: String)
    ensures
        r@ == lower_of(s@),
{
    s.to_lowercase()
}

/// The name does not start with a dot.
pub open spec fn is_visible(name: Seq<char>) -> bool {
    !(name.len() > 0 && name[0] == '.')
}

/// The entry is listed: dotfiles only when they are not hidden.
pub open spec fn is_listed(name: Seq<char>, hide: bool) -> bool {
    !hide || is_visible(name)
}

/// `a` may be listed before `b`: directories first, then by lowercased name.
pub open spec fn listed_before(a: ProjectFileEntry, b: ProjectFileEntry) -> bool {
    (a.is_directory && !b.is_directory) || (a.is_directory == b.is_directory && lex_le(
        lower_of(a.name@),
        lower_of(b.name@),
    ))
}

pub open spec fn in_listing_order(s: Seq<ProjectFileEntry>) -> bool {
    forall|i: int, j: int| 0 <= i < j < s.len() ==> listed_before(#[trigger] s[i], #[trigger] s[j])
}

/// `e` is the listing entry for the item `it` of directory `dir` under `base`.
pub open spec fn entry_for(base: Seq<char>, dir: Seq<char>, it: DirItem, e: ProjectFileEntry) -> bool {
    &&& e.name@ == it.name@
    &&& relative_of(base, join_spec(dir, it.name@)) == Some(e.path@)
    &&& e.is_directory == it.is_dir
    &&& e.children == if it.is_dir && it.children@.len() > 0 {
        Some(it.children)
    } else {
        None
    }
}

/// `p` pairs each entry of `out` with a distinct visible item of `items`,
/// covering every visible item.
pub open spec fn pairing(
    base: Seq<char>,
    dir: Seq<char>,
    hide: bool,
    items: Seq<DirItem>,
    out: Seq<ProjectFileEntry>,
    p: Seq<int>,
) -> bool {
    &&& p.len() == out.len()
    &&& forall|i: int|
        0 <= i < p.len() ==> 0 <= #[trigger] p[i] < items.len() && is_listed(items[p[i]].name@, hide)
            && entry_for(base, dir, items[p[i]], out[i])
    &&& forall|i: int, j: int| 0 <= i < j < p.len() ==> #[trigger] p[i] != #[trigger] p[j]
    &&& forall|k: int|
        0 <= k < items.len() && is_listed(#[trigger] items[k].name@, hide) ==> exists|i: int|
            0 <= i < p.len() && p[i] == k
}

/// `out` is the listing of the directory `dir` whose entries are `items`:
/// one entry per visible item, in listing order.
pub open spec fn listing_of(
    base: Seq<char>,
    dir: Seq<char>,
    hide: bool,
    items: Seq<DirItem>,
    out: Seq<ProjectFileEntry>,
) -> bool {
    &&& in_listing_order(out)
    &&& exists|p: Seq<int>| pairing(base, dir, hide, items, out, p)
}

/// Some visible item of `dir` lies outside `base`.
pub open spec fn has_escaping_item(
    base: Seq<char>,
    dir: Seq<char>,
    hide: bool,
    items: Seq<DirItem>,
) -> bool {
    exists|k: int|
        0 <= k < items.len() && is_listed(#[trigger] items[k].name@, hide) && relative_of(
            base,
            join_spec(dir, items[k].name@),
        ) is None
}

/// `es` is a well-formed listing of directory `dir` at `depth`, at every
/// level below it too: nothing past depth `max`, no hidden dotfiles, listing
/// order, paths relative to `base`, and `children` only on directories with
/// a non-empty listing.
pub open spec fn well_listed(
    base: Seq<char>,
    dir: Seq<char>,
    depth: int,
    max: int,
    hide: bool,
    es: Seq<ProjectFileEntry>,
) -> bool
    decreases max + 1 - depth,
{
    if depth > max {
        es.len() == 0
    } else {
        &&& in_listing_order(es)
        &&& forall|i: int|
            0 <= i < es.len() ==> {
                &&& is_listed((#[trigger] es[i]).name@, hide)
                &&& relative_of(base, join_spec(dir, es[i].name@)) == Some(es[i].path@)
                &&& match es[i].children {
                    None => true,
                    Some(c) => es[i].is_directory && c@.len() > 0 && well_listed(
                        base,
                        join_spec(dir, es[i].name@),
                        depth + 1,
                        max,
                        hide,
                        c@,
                    ),
                }
            }
    }
}

/// No entry of a well-formed listing at the depth limit or beyond has
/// children, however deep the directories on disk nest.
pub proof fn law_listing_depth_bounded(
    base: Seq<char>,
    dir: Seq<char>,
    depth: int,
    max: int,
    hide: bool,
    es: Seq<ProjectFileEntry>,
    i: int,
)
    requires
        well_listed(base, dir, depth, max, hide, es),
        0 <= i < es.len(),
        es[i].children is Some,
    ensures
        depth < max,
{
    if depth == max {
        let c = es[i].children->Some_0;
        assert(well_listed(base, join_spec(dir, es[i].name@), depth + 1, max, hide, c@));
    }
}

proof fn lemma_listed_total(a: ProjectFileEntry, b: ProjectFileEntry)
    ensures
        listed_before(a, b) || listed_before(b, a),
{
    lemma_lex_total(lower_of(a.name@), lower_of(b.name@));
}

proof fn lemma_listed_trans(a: ProjectFileEntry, b: ProjectFileEntry, c: ProjectFileEntry)
    requires
        listed_before(a, b),
        listed_before(b, c),
    ensures
        listed_before(a, c),
{
    if a.is_directory == b.is_directory && b.is_directory == c.is_directory {
        lemma_lex_trans(lower_of(a.name@), lower_of(b.name@), lower_of(c.name@));
    }
}

/// A directory that holds only dotfiles lists as empty, and the listing
/// cannot fail.
pub proof fn law_dotfiles_only_list_empty(
    base: Seq<char>,
    dir: Seq<char>,
    items: Seq<DirItem>,
    out: Seq<ProjectFileEntry>,
)
    requires
        forall|k: int| 0 <= k < items.len() ==> !is_visible(#[trigger] items[k].name@),
        listing_of(base, dir, true, items, out),
    ensures
        out.len() == 0,
        !has_escaping_item(base, dir, true, items),
{
    let p = choose|p: Seq<int>| pairing(base, dir, true, items, out, p);
    if out.len() > 0 {
        assert(0 <= p[0] < items.len() && is_listed(items[p[0]].name@, true));
    }
}

/// Whether an entry of this name is left out of listings.
pub fn is_hidden(name: &str) -> (r: bool)
    ensures
        r == !is_visible(name@),
{
    name.unicode_len() > 0 && name.get_char(0) == '.'
}

/// Whether a directory at `depth` is still listed.
pub fn within_depth(depth: usize) -> (r: bool)
    ensures
        r == (depth <= MAX_TREE_DEPTH),
{
    depth <= MAX_TREE_DEPTH
}

/// Builds the listing of directory `dir` at `depth` below the project root
/// `base` with the default policy: depth limit `MAX_TREE_DEPTH`, dotfiles
/// hidden. See `build_directory_entries_with`.
pub fn build_directory_entries(base: &str, dir: &str, depth: usize, items: Vec<DirItem>) -> (r:
    Result<Vec<ProjectFileEntry>, AppError>)
    requires
        forall|k: int|
            0 <= k < items@.len() ==> well_listed(
                base@,
                join_spec(dir@, (#[trigger] items@[k]).name@),
                depth + 1,
                MAX_TREE_DEPTH as int,
                true,
                items@[k].children@,
            ),
    ensures
        depth > MAX_TREE_DEPTH ==> r is Ok && r->Ok_0@.len() == 0,
        r is Ok ==> well_listed(base@, dir@, depth as int, MAX_TREE_DEPTH as int, true, r->Ok_0@),
        depth <= MAX_TREE_DEPTH ==> match r {
            Ok(v) => !has_escaping_item(base@, dir@, true, items@) && listing_of(
                base@,
                dir@,
                true,
                items@,
                v@,
            ),
            Err(e) => has_escaping_item(base@, dir@, true, items@) && e is PathEscape,
        },
{
    build_directory_entries_with(base, dir, depth, items, MAX_TREE_DEPTH, true)
}

/// Builds the listing of directory `dir` at `depth` below the project root
/// `base`, from its entries as read from disk; each directory entry brings
/// the listing of its own contents, built at `depth + 1`.
///
/// Beyond `max_depth` the listing is empty. Dotfiles are left out when
/// `hide_dotfiles` holds; directories come before files and each group is
/// ordered by lowercased name; a directory carries `children` only when its
/// own listing is not empty. An entry whose path does not lie under `base`
/// is `PathEscape`.
pub fn build_directory_entries_with(
    base: &str,
    dir: &str,
    depth: usize,
    items: Vec<DirItem>,
    max_depth: usize,
    hide_dotfiles: bool,
) -> (r: Result<Vec<ProjectFileEntry>, AppError>)
    requires
        forall|k: int|
            0 <= k < items@.len() ==> well_listed(
                base@,
                join_spec(dir@, (#[trigger] items@[k]).name@),
                depth + 1,
                max_depth as int,
                hide_dotfiles,
                items@[k].children@,
            ),
    ensures
        depth > max_depth ==> r is Ok && r->Ok_0@.len() == 0,
        r is Ok ==> well_listed(base@, dir@, depth as int, max_depth as int, hide_dotfiles, r->Ok_0@),
        depth <= max_depth ==> match r {
            Ok(v) => !has_escaping_item(base@, dir@, hide_dotfiles, items@) && listing_of(
                base@,
                dir@,
                hide_dotfiles,
                items@,
                v@,
            ),
            Err(e) => has_escaping_item(base@, dir@, hide_dotfiles, items@) && e is PathEscape,
        },
{
    if depth > max_depth {
        return Ok(Vec::new());
    }
    let ghost orig = items@;
    let mut rest = items;
    let mut out: Vec<ProjectFileEntry> = Vec::new();
    let mut keys: Vec<String> = Vec::new();
    let ghost mut p: Seq<int> = Seq::empty();
    while rest.len() > 0
        invariant
            depth <= max_depth,
            orig == items@,
            forall|k: int|
                0 <= k < orig.len() ==> well_listed(
                    base@,
                    join_spec(dir@, (#[trigger] orig[k]).name@),
                    depth + 1,
                    max_depth as int,
                    hide_dotfiles,
                    orig[k].children@,
                ),
            rest@ == orig.subrange(0, rest@.len() as int),
            rest@.len() <= orig.len(),
            out@.len() == keys@.len(),
            forall|i: int| 0 <= i < keys@.len() ==> #[trigger] keys@[i]@ == lower_of(out@[i].name@),
            in_listing_order(out@),
            p.len() == out@.len(),
            forall|i: int|
                0 <= i < p.len() ==> rest@.len() <= #[trigger] p[i] < orig.len() && is_listed(
                    orig[p[i]].name@,
                    hide_dotfiles,
                ) && entry_for(base@, dir@, orig[p[i]], out@[i]),
            forall|i: int, j: int| 0 <= i < j < p.len() ==> #[trigger] p[i] != #[trigger] p[j],
            forall|k: int|
                rest@.len() <= k < orig.len() && is_listed(#[trigger] orig[k].name@, hide_dotfiles) ==> exists|
                    i: int,
                | 0 <= i < p.len() && p[i] == k,
            forall|k: int|
                rest@.len() <= k < orig.len() && is_listed(#[trigger] orig[k].name@, hide_dotfiles)
                    ==> relative_of(base@, join_spec(dir@, orig[k].name@)) is Some,
        decreases rest@.len(),
    {
        let ghost m = rest@.len() - 1;
        let it = rest.pop().unwrap();
        assert(it == orig[m]);
        assert(rest@ =~= orig.subrange(0, m));
        let DirItem { name, is_dir, children } = it;
        let hidden = hide_dotfiles && is_hidden(name.as_str());
        if !hidden {
            let path = join_path(dir, name.as_str());
            let rel = match to_relative_string(base, path.as_str()) {
                Ok(rel) => rel,
                Err(e) => {
                    assert(has_escaping_item(base@, dir@, hide_dotfiles, orig) && e is PathEscape) by {
                        assert(is_listed(orig[m].name@, hide_dotfiles));
                    }
                    return Err(e);
                },
            };
            let key = lowercase(name.as_str());
            let has_children = is_dir && children.len() > 0;
            let entry = ProjectFileEntry {
                name,
                path: rel,
                is_directory: is_dir,
                children: if has_children {
                    Some(children)
                } else {
                    None
                },
            };
            assert(entry_for(base@, dir@, orig[m], entry));
            let mut j: usize = 0;
            while j < out.len() && before_or_tie(out[j].is_directory, &keys[j], is_dir, &key)
                invariant
                    j <= out@.len(),
                    out@.len() == keys@.len(),
                    forall|i: int| 0 <= i < keys@.len() ==> #[trigger] keys@[i]@ == lower_of(out@[i].name@),
                    key@ == lower_of(entry.name@),
                    is_dir == entry.is_directory,
                    forall|i: int| 0 <= i < j ==> listed_before(#[trigger] out@[i], entry),
                decreases out@.len() - j,
            {
                j = j + 1;
            }
            proof {
                if j < out@.len() {
                    assert(!listed_before(out@[j as int], entry));
                    lemma_listed_total(out@[j as int], entry);
                    assert forall|i: int| j <= i < out@.len() implies listed_before(
                        entry,
                        #[trigger] out@[i],
                    ) by {
                        if i > j {
                            assert(listed_before(out@[j as int], out@[i]));
                            lemma_listed_trans(entry, out@[j as int], out@[i]);
                        }
                    }
                }
            }
            let ghost old_out = out@;
            let ghost old_keys = keys@;
            out.insert(j, entry);
            keys.insert(j, key);
            proof {
                let old_p = p;
                p = p.insert(j as int, m);
                assert(forall|i: int| 0 <= i < j ==> out@[i] == old_out[i] && p[i] == old_p[i]);
                assert(out@[j as int] == entry && p[j as int] == m);
                assert(forall|i: int|
                    j < i < out@.len() ==> out@[i] == old_out[i - 1] && p[i] == old_p[i - 1]);
                assert(forall|i: int|
                    0 <= i < keys@.len() ==> #[trigger] keys@[i]@ == lower_of(out@[i].name@)) by {
                    assert(forall|i: int| 0 <= i < j ==> keys@[i] == old_keys[i]);
                    assert(forall|i: int| j < i < keys@.len() ==> keys@[i] == old_keys[i - 1]);
                }
                assert(in_listing_order(out@)) by {
                    assert forall|a: int, b: int| 0 <= a < b < out@.len() implies listed_before(
                        #[trigger] out@[a],
                        #[trigger] out@[b],
                    ) by {
                        if b < j {
                        } else if b == j {
                        } else if a < j {
                            assert(listed_before(old_out[a], old_out[b - 1]));
                        } else if a == j {
                        } else {
                            assert(listed_before(old_out[a - 1], old_out[b - 1]));
                        }
                    }
                }
                assert forall|k: int|
                    m <= k < orig.len() && is_listed(#[trigger] orig[k].name@, hide_dotfiles) implies exists|
                        i: int,
                    | 0 <= i < p.len() && p[i] == k by {
                    if k == m {
                        assert(p[j as int] == m);
                    } else {
                        let i0 = choose|i: int| 0 <= i < old_p.len() && old_p[i] == k;
                        if i0 < j {
                            assert(p[i0] == k);
                        } else {
                            assert(p[i0 + 1] == k);
                        }
                    }
                }
            }
        } else {
            assert(!is_listed(orig[m].name@, hide_dotfiles));
        }
    }
    proof {
        assert(rest@.len() == 0);
        assert(pairing(base@, dir@, hide_dotfiles, orig, out@, p));
        assert(!has_escaping_item(base@, dir@, hide_dotfiles, orig));
        assert forall|i: int| 0 <= i < out@.len() implies {
            &&& is_listed((#[trigger] out@[i]).name@, hide_dotfiles)
            &&& relative_of(base@, join_spec(dir@, out@[i].name@)) == Some(out@[i].path@)
            &&& match out@[i].children {
                None => true,
                Some(c) => out@[i].is_directory && c@.len() > 0 && well_listed(
                    base@,
                    join_spec(dir@, out@[i].name@),
                    depth + 1,
                    max_depth as int,
                    hide_dotfiles,
                    c@,
                ),
            }
        } by {
            assert(entry_for(base@, dir@, orig[p[i]], out@[i]));
        }
        assert(well_listed(base@, dir@, depth as int, max_depth as int, hide_dotfiles, out@));
    }
    Ok(out)
}

/// `a` (a directory when `a_dir`, with lowercased name `a_key`) may be
/// listed before `b`.
fn before_or_tie(a_dir: bool, a_key: &String, b_dir: bool, b_key: &String) -> (r: bool)
    ensures
        r == ((a_dir && !b_dir) || (a_dir == b_dir && lex_le(a_key@, b_key@))),
{
    if a_dir != b_dir {
        a_dir
    } else {
        lex_le_str(a_key.as_str(), b_key.as_str())
    }
}

} // verus!
