//! The listing's guarantees, stated and proved over the model.

use vstd::prelude::*;
use crate::entry::{EntryKind, FsEntry, forest_size, is_hidden};
use crate::entry::{lemma_forest_size_add, lemma_forest_size_contains, lemma_forest_size_index};
use crate::listing::{
    LineModel, arranged, bucket, entry_line, is_kind_line, keep, level_lines, line_name, lines_of,
    render_model, subtree_lines, lemma_forest_size_arranged,
};
use crate::options::{Opts, active_key};
use crate::order::{lemma_sort_seq, lemma_sort_seq_contains, ordered_by};

verus! {

/// A predicate holds of every line of a sequence.
pub open spec fn all_lines(s: Seq<LineModel>, p: spec_fn(LineModel) -> bool) -> bool {
    forall|i: int| 0 <= i < s.len() ==> #[trigger] p(s[i])
}

proof fn lemma_all_lines_add(a: Seq<LineModel>, b: Seq<LineModel>, p: spec_fn(LineModel) -> bool)
    requires
        all_lines(a, p),
        all_lines(b, p),
    ensures
        all_lines(a + b, p),
{
    assert forall|i: int| 0 <= i < (a + b).len() implies #[trigger] p((a + b)[i]) by {
        if i < a.len() {
            assert((a + b)[i] == a[i]);
        } else {
            assert((a + b)[i] == b[i - a.len()]);
        }
    }
}

proof fn lemma_all_lines_of(
    b: Seq<FsEntry>,
    indent: int,
    p: spec_fn(LineModel) -> bool,
)
    requires
        forall|i: int| 0 <= i < b.len() ==> #[trigger] p(entry_line(b[i], indent)),
    ensures
        all_lines(lines_of(b, indent), p),
{
    assert forall|i: int| 0 <= i < lines_of(b, indent).len() implies #[trigger] p(
        lines_of(b, indent)[i],
    ) by {
        assert(lines_of(b, indent)[i] == entry_line(b[i], indent));
    }
}

/// Every entry of an arranged bucket is a visible entry of its kind:
/// sorting and filtering never move an entry across buckets, and never
/// let a hidden entry in.
pub proof fn lemma_arranged_elements(s: Seq<FsEntry>, kind: EntryKind, o: Opts)
    ensures
        forall|i: int| 0 <= i < arranged(s, kind, o).len() ==> #[trigger] keep(
            arranged(s, kind, o)[i],
            kind,
        ),
{
    broadcast use vstd::prelude::Seq::lemma_filter_pred;

    let arr = arranged(s, kind, o);
    match active_key(o) {
        Some(k) => {
            assert forall|i: int| 0 <= i < arr.len() implies #[trigger] keep(arr[i], kind) by {
                let e = arr[i];
                assert(arr.contains(e));
                lemma_sort_seq_contains(bucket(s, kind), k, e);
                let j = choose|j: int| 0 <= j < bucket(s, kind).len() && bucket(s, kind)[j] == e;
                assert(keep(bucket(s, kind)[j], kind));
            }
        },
        None => {
            assert forall|i: int| 0 <= i < arr.len() implies #[trigger] keep(arr[i], kind) by {
                assert(keep(bucket(s, kind)[i], kind));
            }
        },
    }
}

/// Each arranged bucket is monotonically ordered by the active key,
/// and holds exactly the entries of the unsorted bucket: sorting is a
/// permutation within one bucket and nothing moves across buckets.
pub proof fn lemma_buckets_ordered(s: Seq<FsEntry>, kind: EntryKind, o: Opts)
    ensures
        match active_key(o) {
            Some(k) => ordered_by(arranged(s, kind, o), k),
            None => arranged(s, kind, o) == bucket(s, kind),
        },
        arranged(s, kind, o).to_multiset() == bucket(s, kind).to_multiset(),
{
    match active_key(o) {
        Some(k) => {
            lemma_sort_seq(bucket(s, kind), k);
        },
        None => {},
    }
}

/// A line predicate that holds of every header and of the entry line
/// of every visible entry whose bucket is printed holds of every line
/// of the listing.
proof fn lemma_render_all(s: Seq<FsEntry>, o: Opts, indent: int, p: spec_fn(LineModel) -> bool)
    requires
        forall|ind: int, name: Seq<char>|
            !is_hidden(name) ==> #[trigger] p(LineModel::Header { indent: ind, name }),
        forall|e: FsEntry, ind: int|
            keep(e, EntryKind::Directory) && !o.filter_files ==> #[trigger] p(entry_line(e, ind)),
        forall|e: FsEntry, ind: int|
            keep(e, EntryKind::File) && !o.filter_dirs ==> #[trigger] p(entry_line(e, ind)),
        forall|e: FsEntry, ind: int|
            keep(e, EntryKind::Other) ==> #[trigger] p(entry_line(e, ind)),
    ensures
        all_lines(render_model(s, o, indent), p),
    decreases forest_size(s), 1int, 0int,
{
    let ds = arranged(s, EntryKind::Directory, o);
    let fs = arranged(s, EntryKind::File, o);
    let os = arranged(s, EntryKind::Other, o);
    lemma_arranged_elements(s, EntryKind::Directory, o);
    lemma_arranged_elements(s, EntryKind::File, o);
    lemma_arranged_elements(s, EntryKind::Other, o);
    let dir_lines = if o.filter_files {
        Seq::<LineModel>::empty()
    } else {
        lines_of(ds, indent)
    };
    let file_lines = if o.filter_dirs {
        Seq::<LineModel>::empty()
    } else {
        lines_of(fs, indent)
    };
    if !o.filter_files {
        lemma_all_lines_of(ds, indent, p);
    }
    if !o.filter_dirs {
        lemma_all_lines_of(fs, indent, p);
    }
    lemma_all_lines_of(os, indent, p);
    let first = if o.group_dirs_first {
        dir_lines
    } else {
        Seq::<LineModel>::empty()
    };
    let last = if o.group_dirs_first {
        Seq::<LineModel>::empty()
    } else {
        dir_lines
    };
    lemma_all_lines_add(first, file_lines, p);
    lemma_all_lines_add(first + file_lines, lines_of(os, indent), p);
    lemma_all_lines_add(first + file_lines + lines_of(os, indent), last, p);
    if o.recursive {
        lemma_forest_size_arranged(s, EntryKind::Directory, o);
        lemma_subtree_all(ds, o, indent, p);
        lemma_all_lines_add(level_lines(ds, fs, os, o, indent), subtree_lines(ds, o, indent), p);
    }
}

proof fn lemma_subtree_all(ds: Seq<FsEntry>, o: Opts, indent: int, p: spec_fn(LineModel) -> bool)
    requires
        forall|i: int| 0 <= i < ds.len() ==> #[trigger] keep(ds[i], EntryKind::Directory),
        forall|ind: int, name: Seq<char>|
            !is_hidden(name) ==> #[trigger] p(LineModel::Header { indent: ind, name }),
        forall|e: FsEntry, ind: int|
            keep(e, EntryKind::Directory) && !o.filter_files ==> #[trigger] p(entry_line(e, ind)),
        forall|e: FsEntry, ind: int|
            keep(e, EntryKind::File) && !o.filter_dirs ==> #[trigger] p(entry_line(e, ind)),
        forall|e: FsEntry, ind: int|
            keep(e, EntryKind::Other) ==> #[trigger] p(entry_line(e, ind)),
    ensures
        all_lines(subtree_lines(ds, o, indent), p),
    decreases forest_size(ds), 0int, ds.len(),
{
    if ds.len() > 0 {
        lemma_forest_size_index(ds, 0);
        assert(ds =~= seq![ds[0]] + ds.drop_first());
        lemma_forest_size_add(seq![ds[0]], ds.drop_first());
        let h = LineModel::Header { indent, name: ds[0].name@ };
        assert(keep(ds[0], EntryKind::Directory));
        assert(all_lines(seq![h], p)) by {
            assert(p(h));
            assert(seq![h][0] == h);
        }
        lemma_render_all(ds[0].children@, o, indent + 1, p);
        assert(forall|i: int|
            0 <= i < ds.drop_first().len() ==> #[trigger] keep(
                ds.drop_first()[i],
                EntryKind::Directory,
            ));
        lemma_subtree_all(ds.drop_first(), o, indent, p);
        lemma_all_lines_add(seq![h], render_model(ds[0].children@, o, indent + 1), p);
        lemma_all_lines_add(
            seq![h] + render_model(ds[0].children@, o, indent + 1),
            subtree_lines(ds.drop_first(), o, indent),
            p,
        );
    }
}

/// Hidden entries never appear in the listing: no line — entry line
/// or header — carries a name that starts with the hidden marker.
pub proof fn lemma_hidden_never_listed(s: Seq<FsEntry>, o: Opts, indent: int)
    ensures
        forall|i: int|
            0 <= i < render_model(s, o, indent).len() ==> !is_hidden(
                line_name(#[trigger] render_model(s, o, indent)[i]),
            ),
{
    let p = |l: LineModel| !is_hidden(line_name(l));
    lemma_render_all(s, o, indent, p);
    assert forall|i: int| 0 <= i < render_model(s, o, indent).len() implies !is_hidden(
        line_name(#[trigger] render_model(s, o, indent)[i]),
    ) by {
        assert(p(render_model(s, o, indent)[i]));
    }
}

/// `filter_files` suppresses every directory entry line, at every
/// depth of the listing.
pub proof fn lemma_filter_files_suppresses_dir_lines(s: Seq<FsEntry>, o: Opts, indent: int)
    requires
        o.filter_files,
    ensures
        forall|i: int|
            0 <= i < render_model(s, o, indent).len() ==> !is_kind_line(
                #[trigger] render_model(s, o, indent)[i],
                EntryKind::Directory,
            ),
{
    let p = |l: LineModel| !is_kind_line(l, EntryKind::Directory);
    lemma_render_all(s, o, indent, p);
    assert forall|i: int| 0 <= i < render_model(s, o, indent).len() implies !is_kind_line(
        #[trigger] render_model(s, o, indent)[i],
        EntryKind::Directory,
    ) by {
        assert(p(render_model(s, o, indent)[i]));
    }
}

/// `filter_dirs` suppresses every file entry line, at every depth of
/// the listing.
pub proof fn lemma_filter_dirs_suppresses_file_lines(s: Seq<FsEntry>, o: Opts, indent: int)
    requires
        o.filter_dirs,
    ensures
        forall|i: int|
            0 <= i < render_model(s, o, indent).len() ==> !is_kind_line(
                #[trigger] render_model(s, o, indent)[i],
                EntryKind::File,
            ),
{
    let p = |l: LineModel| !is_kind_line(l, EntryKind::File);
    lemma_render_all(s, o, indent, p);
    assert forall|i: int| 0 <= i < render_model(s, o, indent).len() implies !is_kind_line(
        #[trigger] render_model(s, o, indent)[i],
        EntryKind::File,
    ) by {
        assert(p(render_model(s, o, indent)[i]));
    }
}

/// The listing is the level's lines followed, exactly when recursion
/// is on, by the subtree lines of the directory bucket: filters bear
/// on printed lines only and never stop the descent.
pub proof fn lemma_render_structure(s: Seq<FsEntry>, o: Opts, indent: int)
    ensures
        render_model(s, o, indent) == level_lines(
            arranged(s, EntryKind::Directory, o),
            arranged(s, EntryKind::File, o),
            arranged(s, EntryKind::Other, o),
            o,
            indent,
        ) + (if o.recursive {
            subtree_lines(arranged(s, EntryKind::Directory, o), o, indent)
        } else {
            Seq::<LineModel>::empty()
        }),
{
    if !o.recursive {
        assert(render_model(s, o, indent) =~= render_model(s, o, indent)
            + Seq::<LineModel>::empty());
    }
}

/// Under recursion, each directory of the bucket contributes its
/// header and then its whole sublisting, one indent deeper, in bucket
/// order.
pub proof fn lemma_subtree_structure(ds: Seq<FsEntry>, o: Opts, indent: int)
    ensures
        ds.len() == 0 ==> subtree_lines(ds, o, indent) == Seq::<LineModel>::empty(),
        ds.len() > 0 ==> subtree_lines(ds, o, indent) == seq![
            LineModel::Header { indent, name: ds[0].name@ },
        ] + render_model(ds[0].children@, o, indent + 1) + subtree_lines(
            ds.drop_first(),
            o,
            indent,
        ),
{
}

/// Others are always printed: every entry of the arranged other
/// bucket has its entry line in the listing, whatever the filters.
pub proof fn lemma_others_always_listed(s: Seq<FsEntry>, o: Opts, indent: int)
    ensures
        forall|j: int|
            0 <= j < arranged(s, EntryKind::Other, o).len() ==> render_model(
                s,
                o,
                indent,
            ).contains(entry_line(#[trigger] arranged(s, EntryKind::Other, o)[j], indent)),
{
    let ds = arranged(s, EntryKind::Directory, o);
    let fs = arranged(s, EntryKind::File, o);
    let os = arranged(s, EntryKind::Other, o);
    let level = level_lines(ds, fs, os, o, indent);
    lemma_render_structure(s, o, indent);
    assert forall|j: int| 0 <= j < os.len() implies render_model(s, o, indent).contains(
        entry_line(#[trigger] os[j], indent),
    ) by {
        let dir_lines = if o.filter_files {
            Seq::<LineModel>::empty()
        } else {
            lines_of(ds, indent)
        };
        let file_lines = if o.filter_dirs {
            Seq::<LineModel>::empty()
        } else {
            lines_of(fs, indent)
        };
        let first = if o.group_dirs_first {
            dir_lines
        } else {
            Seq::<LineModel>::empty()
        };
        let off = first.len() + file_lines.len() + j;
        assert(lines_of(os, indent)[j] == entry_line(os[j], indent));
        assert(level[off] == entry_line(os[j], indent));
        assert(render_model(s, o, indent)[off] == level[off]);
    }
}

/// The lines of one level of the listing, before any recursion.
pub open spec fn level_of(s: Seq<FsEntry>, o: Opts, indent: int) -> Seq<LineModel> {
    level_lines(
        arranged(s, EntryKind::Directory, o),
        arranged(s, EntryKind::File, o),
        arranged(s, EntryKind::Other, o),
        o,
        indent,
    )
}

/// With grouping on, every directory line of a level precedes every
/// file line of that level; with grouping off, every file line
/// precedes every directory line.
pub proof fn lemma_grouping_order(s: Seq<FsEntry>, o: Opts, indent: int)
    ensures
        forall|i: int, j: int|
            (0 <= i < level_of(s, o, indent).len() && 0 <= j < level_of(s, o, indent).len()
                && #[trigger] is_kind_line(level_of(s, o, indent)[i], EntryKind::Directory)
                && #[trigger] is_kind_line(level_of(s, o, indent)[j], EntryKind::File)) ==> (
            if o.group_dirs_first {
                i < j
            } else {
                j < i
            }),
{
    let ds = arranged(s, EntryKind::Directory, o);
    let fs = arranged(s, EntryKind::File, o);
    let os = arranged(s, EntryKind::Other, o);
    let level = level_of(s, o, indent);
    lemma_arranged_elements(s, EntryKind::Directory, o);
    lemma_arranged_elements(s, EntryKind::File, o);
    lemma_arranged_elements(s, EntryKind::Other, o);
    let dir_lines = if o.filter_files {
        Seq::<LineModel>::empty()
    } else {
        lines_of(ds, indent)
    };
    let file_lines = if o.filter_dirs {
        Seq::<LineModel>::empty()
    } else {
        lines_of(fs, indent)
    };
    let first = if o.group_dirs_first {
        dir_lines
    } else {
        Seq::<LineModel>::empty()
    };
    let last = if o.group_dirs_first {
        Seq::<LineModel>::empty()
    } else {
        dir_lines
    };
    assert forall|i: int, j: int|
        (0 <= i < level.len() && 0 <= j < level.len() && #[trigger] is_kind_line(
            level[i],
            EntryKind::Directory,
        ) && #[trigger] is_kind_line(level[j], EntryKind::File)) implies (if o.group_dirs_first {
        i < j
    } else {
        j < i
    }) by {
        let a = first.len();
        let b = a + file_lines.len();
        let c = b + lines_of(os, indent).len();
        // a directory line can only come from the directory bucket's
        // segment, a file line only from the file bucket's segment
        if i < a {
            assert(level[i] == first[i]);
        } else if i < b {
            assert(level[i] == file_lines[i - a]);
            assert(level[i] == entry_line(fs[i - a], indent));
            assert(keep(fs[i - a], EntryKind::File));
        } else if i < c {
            assert(level[i] == lines_of(os, indent)[i - b]);
            assert(level[i] == entry_line(os[i - b], indent));
            assert(keep(os[i - b], EntryKind::Other));
        } else {
            assert(level[i] == last[i - c]);
        }
        if j < a {
            assert(level[j] == first[j]);
            assert(level[j] == entry_line(ds[j], indent));
            assert(keep(ds[j], EntryKind::Directory));
        } else if j < b {
            assert(level[j] == file_lines[j - a]);
        } else if j < c {
            assert(level[j] == lines_of(os, indent)[j - b]);
            assert(level[j] == entry_line(os[j - b], indent));
            assert(keep(os[j - b], EntryKind::Other));
        } else {
            assert(level[j] == last[j - c]);
            assert(level[j] == entry_line(ds[j - c], indent));
            assert(keep(ds[j - c], EntryKind::Directory));
        }
    }
}

/// An entry is reachable at the given depth: at depth zero it is a
/// visible entry of the level itself, deeper it sits under a visible
/// directory of the level.
pub open spec fn appears(s: Seq<FsEntry>, e: FsEntry, depth: int) -> bool
    decreases forest_size(s),
    via appears_decreases
{
    if depth <= 0 {
        depth == 0 && (exists|i: int| 0 <= i < s.len() && s[i] == e) && !is_hidden(e.name@)
    } else {
        exists|p: FsEntry|
            {
                &&& #[trigger] s.contains(p)
                &&& p.kind == EntryKind::Directory
                &&& !is_hidden(p.name@)
                &&& appears(p.children@, e, depth - 1)
            }
    }
}

#[via_fn]
proof fn appears_decreases(s: Seq<FsEntry>, e: FsEntry, depth: int) {
    assert forall|p: FsEntry| s.contains(p) implies forest_size(p.children@) < forest_size(
        s,
    ) by {
        lemma_forest_size_contains(s, p);
    }
}

/// Whether lines of this kind are printed under the filters: `--files`
/// hides directory lines, `--dirs` hides file lines, others always
/// print.
pub open spec fn kind_printed(k: EntryKind, o: Opts) -> bool {
    match k {
        EntryKind::Directory => !o.filter_files,
        EntryKind::File => !o.filter_dirs,
        EntryKind::Other => true,
    }
}

/// A visible entry of a level has its line in the level's output
/// whenever the filters print its kind.
proof fn lemma_level_contains(s: Seq<FsEntry>, o: Opts, indent: int, e: FsEntry)
    requires
        kind_printed(e.kind, o),
        s.contains(e),
        !is_hidden(e.name@),
    ensures
        level_of(s, o, indent).contains(entry_line(e, indent)),
{
    broadcast use vstd::prelude::Seq::lemma_filter_contains;

    let kind = e.kind;
    let i = choose|i: int| 0 <= i < s.len() && s[i] == e;
    assert(keep(s[i], kind));
    assert(bucket(s, kind).contains(e));
    let arr = arranged(s, kind, o);
    assert(arr.contains(e)) by {
        match active_key(o) {
            Some(k) => {
                lemma_sort_seq_contains(bucket(s, kind), k, e);
            },
            None => {},
        }
    }
    let j = choose|j: int| 0 <= j < arr.len() && arr[j] == e;
    let ds = arranged(s, EntryKind::Directory, o);
    let fs = arranged(s, EntryKind::File, o);
    let os = arranged(s, EntryKind::Other, o);
    let level = level_of(s, o, indent);
    let dlen: int = if o.filter_files {
        0
    } else {
        ds.len() as int
    };
    let flen: int = if o.filter_dirs {
        0
    } else {
        fs.len() as int
    };
    let firstlen: int = if o.group_dirs_first {
        dlen
    } else {
        0
    };
    assert(lines_of(arr, indent)[j] == entry_line(e, indent));
    match kind {
        EntryKind::Directory => {
            if o.group_dirs_first {
                assert(level[j] == lines_of(ds, indent)[j]);
            } else {
                assert(level[flen + os.len() + j] == lines_of(ds, indent)[j]);
            }
        },
        EntryKind::File => {
            assert(level[firstlen + j] == lines_of(fs, indent)[j]);
        },
        EntryKind::Other => {
            assert(level[firstlen + flen + j] == lines_of(os, indent)[j]);
        },
    }
}

/// A line of the sublisting of any directory of the bucket is a line
/// of the whole subtree part.
proof fn lemma_subtree_contains_sub(
    ds: Seq<FsEntry>,
    o: Opts,
    indent: int,
    k: int,
    l: LineModel,
)
    requires
        0 <= k < ds.len(),
        render_model(ds[k].children@, o, indent + 1).contains(l),
    ensures
        subtree_lines(ds, o, indent).contains(l),
    decreases k,
{
    let sub = render_model(ds[0].children@, o, indent + 1);
    let whole = subtree_lines(ds, o, indent);
    if k == 0 {
        let i = choose|i: int| 0 <= i < sub.len() && sub[i] == l;
        assert(whole[1 + i] == l);
    } else {
        assert(ds.drop_first()[k - 1] == ds[k]);
        lemma_subtree_contains_sub(ds.drop_first(), o, indent, k - 1, l);
        let rest = subtree_lines(ds.drop_first(), o, indent);
        let i = choose|i: int| 0 <= i < rest.len() && rest[i] == l;
        assert(whole[1 + sub.len() + i] == l);
    }
}

/// No entry is skipped by the recursive descent: with recursion on,
/// every entry reachable at some depth through visible directories has
/// its entry line in the listing, at the level's indent plus that
/// depth, as long as the filters print its kind.  In particular the
/// filters never stop the descent itself: files below a suppressed
/// directory line are still listed.
pub proof fn lemma_every_reachable_entry_listed(
    s: Seq<FsEntry>,
    o: Opts,
    indent: int,
    e: FsEntry,
    depth: int,
)
    requires
        o.recursive,
        kind_printed(e.kind, o),
        appears(s, e, depth),
    ensures
        render_model(s, o, indent).contains(entry_line(e, indent + depth)),
    decreases depth,
{
    broadcast use vstd::prelude::Seq::lemma_filter_contains;

    let out = render_model(s, o, indent);
    let level = level_of(s, o, indent);
    let ds = arranged(s, EntryKind::Directory, o);
    lemma_render_structure(s, o, indent);
    if depth <= 0 {
        lemma_level_contains(s, o, indent, e);
        let i = choose|i: int| 0 <= i < level.len() && level[i] == entry_line(e, indent);
        assert(out[i] == entry_line(e, indent));
    } else {
        let p = choose|p: FsEntry|
            {
                &&& #[trigger] s.contains(p)
                &&& p.kind == EntryKind::Directory
                &&& !is_hidden(p.name@)
                &&& appears(p.children@, e, depth - 1)
            };
        lemma_every_reachable_entry_listed(p.children@, o, indent + 1, e, depth - 1);
        let i = choose|i: int| 0 <= i < s.len() && s[i] == p;
        assert(keep(s[i], EntryKind::Directory));
        assert(bucket(s, EntryKind::Directory).contains(p));
        assert(ds.contains(p)) by {
            match active_key(o) {
                Some(k) => {
                    lemma_sort_seq_contains(bucket(s, EntryKind::Directory), k, p);
                },
                None => {},
            }
        }
        let k = choose|k: int| 0 <= k < ds.len() && ds[k] == p;
        assert(render_model(ds[k].children@, o, indent + 1).contains(
            entry_line(e, indent + depth),
        ));
        lemma_subtree_contains_sub(ds, o, indent, k, entry_line(e, indent + depth));
        let st = subtree_lines(ds, o, indent);
        let i2 = choose|i2: int| 0 <= i2 < st.len() && st[i2] == entry_line(e, indent + depth);
        assert(out[level.len() + i2] == entry_line(e, indent + depth));
    }
}

} // verus!
