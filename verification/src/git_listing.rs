//! Building the file index of a repository from what `git ls-files` lists:
//! the listed paths, each preceded by the directories above it (each
//! directory once), up to a number of entries.
use vstd::prelude::*;

use crate::completion::{IndexedPath, PathKind};
use crate::names::contains_name;
use crate::text::{chars_of, push_char};
use crate::timestamp::{slice_chars, trim_chars, trim_end, trim_start};

verus! {

// ---------------------------------------------------------------------------
// The listing
// ---------------------------------------------------------------------------

/// The pieces of `s` between newlines, in order (one more than there are
/// newlines).
pub open spec fn newline_pieces(s: Seq<char>) -> Seq<Seq<char>>
    decreases s.len(),
{
    if s.len() == 0 {
        seq![Seq::empty()]
    } else if s.last() == '\n' {
        newline_pieces(s.drop_last()).push(Seq::empty())
    } else {
        let p = newline_pieces(s.drop_last());
        p.drop_last().push(p.last().push(s.last()))
    }
}

/// The trimmed pieces that are not empty, in order.
pub open spec fn paths_of(pieces: Seq<Seq<char>>) -> Seq<Seq<char>>
    decreases pieces.len(),
{
    if pieces.len() == 0 {
        Seq::empty()
    } else {
        let rest = paths_of(pieces.drop_last());
        let t = trim_end(trim_start(pieces.last()));
        if t.len() > 0 {
            rest.push(t)
        } else {
            rest
        }
    }
}

/// The paths a listing names: its lines, trimmed, without the empty ones.
pub open spec fn listed_paths(listing: Seq<char>) -> Seq<Seq<char>> {
    paths_of(newline_pieces(listing))
}

fn string_of(cs: &Vec<char>) -> (r: String)
    ensures
        r@ == cs@,
{
    let mut r = String::new();
    let mut i: usize = 0;
    while i < cs.len()
        invariant
            i <= cs.len(),
            r@ == cs@.take(i as int),
        decreases cs.len() - i,
    {
        push_char(&mut r, cs[i]);
        assert(cs@.take(i as int + 1) =~= cs@.take(i as int).push(cs@[i as int]));
        i = i + 1;
    }
    assert(cs@.take(i as int) =~= cs@);
    r
}

/// The paths a listing names, in order: its lines, trimmed of white
/// space, without the empty ones.
pub fn listing_paths(listing: &str) -> (r: Vec<String>)
    ensures
        r.deep_view() == listed_paths(listing@),
{
    let cs = chars_of(listing);
    let mut out: Vec<String> = Vec::new();
    let ghost mut done: Seq<Seq<char>> = Seq::empty();
    let mut start: usize = 0;
    let mut i: usize = 0;
    assert(cs@.take(0) =~= Seq::<char>::empty());
    assert(cs@.subrange(0, 0) =~= Seq::<char>::empty());
    assert(newline_pieces(Seq::<char>::empty()) =~= done.push(Seq::<char>::empty()));
    while i < cs.len()
        invariant
            start <= i <= cs.len(),
            newline_pieces(cs@.take(i as int)) == done.push(cs@.subrange(start as int, i as int)),
            out.deep_view() == paths_of(done),
        decreases cs.len() - i,
    {
        assert(cs@.take(i as int + 1).drop_last() =~= cs@.take(i as int));
        assert(cs@.take(i as int + 1).last() == cs@[i as int]);
        if cs[i] == '\n' {
            let piece = slice_chars(&cs, start, i);
            let t = trim_chars(&piece);
            let ghost before = out.deep_view();
            proof {
                assert(done.push(cs@.subrange(start as int, i as int)).drop_last() =~= done);
            }
            if t.len() > 0 {
                out.push(string_of(&t));
                assert(out.deep_view() =~= before.push(t@));
            }
            proof {
                done = done.push(cs@.subrange(start as int, i as int));
                assert(cs@.subrange(i as int + 1, i as int + 1) =~= Seq::<char>::empty());
            }
            start = i + 1;
        } else {
            proof {
                let p = newline_pieces(cs@.take(i as int));
                assert(p.drop_last() =~= done);
                assert(cs@.subrange(start as int, i as int + 1) =~= cs@.subrange(start as int, i as int).push(
                    cs@[i as int],
                ));
                assert(p.drop_last().push(p.last().push(cs@[i as int])) =~= done.push(
                    cs@.subrange(start as int, i as int + 1),
                ));
            }
        }
        i = i + 1;
    }
    assert(cs@.take(i as int) =~= cs@);
    let piece = slice_chars(&cs, start, i);
    let t = trim_chars(&piece);
    let ghost before = out.deep_view();
    proof {
        assert(done.push(cs@.subrange(start as int, i as int)).drop_last() =~= done);
    }
    if t.len() > 0 {
        out.push(string_of(&t));
        assert(out.deep_view() =~= before.push(t@));
    }
    out
}

// ---------------------------------------------------------------------------
// The index
// ---------------------------------------------------------------------------

/// The directories above a path, outermost first: each prefix that ends
/// just before a `/` (paths as git lists them: relative, single slashes).
pub open spec fn parent_dirs(p: Seq<char>) -> Seq<Seq<char>>
    decreases p.len(),
{
    if p.len() == 0 {
        Seq::empty()
    } else {
        let rest = parent_dirs(p.drop_last());
        if p.last() == '/' && p.len() > 1 {
            rest.push(p.drop_last())
        } else {
            rest
        }
    }
}

fn parent_dirs_exec(p: &String) -> (r: Vec<String>)
    ensures
        r.deep_view() == parent_dirs(p@),
{
    let cs = chars_of(p.as_str());
    let mut r: Vec<String> = Vec::new();
    let mut prefix = String::new();
    let mut i: usize = 0;
    while i < cs.len()
        invariant
            i <= cs.len(),
            prefix@ == cs@.take(i as int),
            r.deep_view() == parent_dirs(cs@.take(i as int)),
        decreases cs.len() - i,
    {
        assert(cs@.take(i as int + 1).drop_last() =~= cs@.take(i as int));
        if cs[i] == '/' && i > 0 {
            let ghost before = r.deep_view();
            r.push(prefix.clone());
            assert(r.deep_view() =~= before.push(prefix@));
        }
        push_char(&mut prefix, cs[i]);
        assert(cs@.take(i as int + 1) =~= cs@.take(i as int).push(cs@[i as int]));
        i = i + 1;
    }
    assert(cs@.take(i as int) =~= cs@);
    r
}

/// An index being built: its entries, and the directories already seen.
pub struct IndexBuild {
    pub entries: Seq<(Seq<char>, PathKind)>,
    pub seen: Set<Seq<char>>,
}

/// A directory met: recorded as seen the first time, and entered while
/// there is room.
pub open spec fn add_dir(st: IndexBuild, d: Seq<char>, max: nat) -> IndexBuild {
    if st.seen.contains(d) {
        st
    } else {
        IndexBuild {
            seen: st.seen.insert(d),
            entries: if st.entries.len() < max {
                st.entries.push((d, PathKind::Directory))
            } else {
                st.entries
            },
        }
    }
}

/// The directories met, in order.
pub open spec fn add_dirs(st: IndexBuild, ds: Seq<Seq<char>>, max: nat) -> IndexBuild
    decreases ds.len(),
{
    if ds.len() == 0 {
        st
    } else {
        add_dir(add_dirs(st, ds.drop_last(), max), ds.last(), max)
    }
}

/// A listed path of kind `kind`: once the index is full nothing more is
/// read; else the directories above it, then the path itself while there
/// is room.
pub open spec fn add_path(st: IndexBuild, p: Seq<char>, kind: PathKind, max: nat) -> IndexBuild {
    if st.entries.len() >= max {
        st
    } else {
        let st1 = add_dirs(st, parent_dirs(p), max);
        if st1.entries.len() < max {
            IndexBuild { entries: st1.entries.push((p, kind)), ..st1 }
        } else {
            st1
        }
    }
}

/// The index built from the listed paths, `kinds[i]` being the kind of
/// `paths[i]`.
pub open spec fn built_index(paths: Seq<Seq<char>>, kinds: Seq<PathKind>, max: nat) -> IndexBuild
    decreases paths.len(),
{
    if paths.len() == 0 {
        IndexBuild { entries: Seq::empty(), seen: Set::empty() }
    } else {
        add_path(built_index(paths.drop_last(), kinds.drop_last(), max), paths.last(), kinds.last(), max)
    }
}

/// The views of a list of index entries.
pub open spec fn entry_views(es: Seq<IndexedPath>) -> Seq<(Seq<char>, PathKind)> {
    es.map_values(|e: IndexedPath| e@)
}

proof fn lemma_entry_views_push(es: Seq<IndexedPath>, e: IndexedPath)
    ensures
        entry_views(es.push(e)) == entry_views(es).push(e@),
{
    assert(entry_views(es.push(e)) =~= entry_views(es).push(e@));
}

proof fn lemma_built_len(paths: Seq<Seq<char>>, kinds: Seq<PathKind>, max: nat)
    ensures
        built_index(paths, kinds, max).entries.len() <= max,
    decreases paths.len(),
{
    if paths.len() > 0 {
        lemma_built_len(paths.drop_last(), kinds.drop_last(), max);
        let st = built_index(paths.drop_last(), kinds.drop_last(), max);
        if st.entries.len() < max {
            lemma_add_dirs_len(st, parent_dirs(paths.last()), max);
        }
    }
}

proof fn lemma_add_dirs_len(st: IndexBuild, ds: Seq<Seq<char>>, max: nat)
    requires
        st.entries.len() <= max,
    ensures
        add_dirs(st, ds, max).entries.len() <= max,
    decreases ds.len(),
{
    if ds.len() > 0 {
        lemma_add_dirs_len(st, ds.drop_last(), max);
    }
}

/// Builds the file index from the listed paths: each path is preceded by
/// the directories above it that were not entered yet, and no more than
/// `max_entries` entries are made. `kinds[i]` is what the file system says
/// `paths[i]` is.
pub fn index_from_listing(paths: &Vec<String>, kinds: &Vec<PathKind>, max_entries: usize) -> (r: Vec<IndexedPath>)
    requires
        kinds@.len() == paths@.len(),
    ensures
        entry_views(r@) == built_index(paths.deep_view(), kinds@, max_entries as nat).entries,
        r@.len() <= max_entries,
{
    let ghost pv = paths.deep_view();
    let ghost max = max_entries as nat;
    let mut entries: Vec<IndexedPath> = Vec::new();
    let mut seen: Vec<String> = Vec::new();
    let mut i: usize = 0;
    while i < paths.len()
        invariant
            i <= paths.len(),
            kinds@.len() == paths@.len(),
            pv == paths.deep_view(),
            max == max_entries as nat,
            entry_views(entries@) == built_index(pv.take(i as int), kinds@.take(i as int), max).entries,
            forall|d: Seq<char>|
                seen.deep_view().contains(d) <==> #[trigger] built_index(
                    pv.take(i as int),
                    kinds@.take(i as int),
                    max,
                ).seen.contains(d),
        decreases paths.len() - i,
    {
        let ghost st = built_index(pv.take(i as int), kinds@.take(i as int), max);
        proof {
            assert(pv.take(i as int + 1).drop_last() =~= pv.take(i as int));
            assert(kinds@.take(i as int + 1).drop_last() =~= kinds@.take(i as int));
            assert(pv.take(i as int + 1).last() == paths@[i as int]@);
            assert(kinds@.take(i as int + 1).last() == kinds@[i as int]);
            lemma_built_len(pv.take(i as int), kinds@.take(i as int), max);
        }
        if entries.len() < max_entries {
            let dirs = parent_dirs_exec(&paths[i]);
            let ghost dv = dirs.deep_view();
            let mut j: usize = 0;
            while j < dirs.len()
                invariant
                    j <= dirs.len(),
                    dv == dirs.deep_view(),
                    max == max_entries as nat,
                    entry_views(entries@) == add_dirs(st, dv.take(j as int), max).entries,
                    forall|d: Seq<char>|
                        seen.deep_view().contains(d) <==> #[trigger] add_dirs(st, dv.take(j as int), max).seen.contains(
                            d,
                        ),
                decreases dirs.len() - j,
            {
                let ghost st_j = add_dirs(st, dv.take(j as int), max);
                assert(dv.take(j as int + 1).drop_last() =~= dv.take(j as int));
                assert(dv.take(j as int + 1).last() == dirs@[j as int]@);
                if !contains_name(&seen, &dirs[j]) {
                    let ghost seen_before = seen.deep_view();
                    seen.push(dirs[j].clone());
                    assert(seen.deep_view() =~= seen_before.push(dirs@[j as int]@));
                    assert forall|d: Seq<char>|
                        seen.deep_view().contains(d) <==> #[trigger] st_j.seen.insert(dirs@[j as int]@).contains(d) by {
                        if d == dirs@[j as int]@ {
                            assert(seen.deep_view()[seen_before.len() as int] == d);
                        }
                        if seen_before.contains(d) {
                            let k = choose|k: int| 0 <= k < seen_before.len() && seen_before[k] == d;
                            assert(seen.deep_view()[k] == d);
                        }
                        if seen.deep_view().contains(d) && d != dirs@[j as int]@ {
                            let k = choose|k: int| 0 <= k < seen.deep_view().len() && seen.deep_view()[k] == d;
                            assert(seen_before[k] == d);
                        }
                    }
                    if entries.len() < max_entries {
                        let e = IndexedPath { path: dirs[j].clone(), kind: PathKind::Directory };
                        proof {
                            lemma_entry_views_push(entries@, e);
                        }
                        entries.push(e);
                    }
                }
                j = j + 1;
            }
            assert(dv.take(j as int) =~= dv);
            if entries.len() < max_entries {
                let e = IndexedPath { path: paths[i].clone(), kind: kinds[i] };
                proof {
                    lemma_entry_views_push(entries@, e);
                }
                entries.push(e);
            }
        }
        i = i + 1;
    }
    proof {
        assert(pv.take(i as int) =~= pv);
        assert(kinds@.take(i as int) =~= kinds@);
        lemma_built_len(pv, kinds@, max);
    }
    entries
}

} // verus!
