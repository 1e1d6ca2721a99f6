//! The listing model: which lines a directory listing holds, in which
//! order, and the verified renderer that produces them.

use vstd::prelude::*;
use crate::entry::{EntryKind, FsEntry, forest_size, is_hidden};
use crate::entry::{
    lemma_forest_size_add, lemma_forest_size_filter, lemma_forest_size_index,
    lemma_forest_size_push,
};
use crate::options::{Opts, active_key};
use crate::order::{SortKey, insert_sorted, sort_seq};

verus! {

/// One line of the listing, as structured data: an entry line with its
/// indent level, kind, name and size, or a subdirectory header printed
/// before a recursive descent.
pub enum Line {
    Entry { indent: usize, kind: EntryKind, name: String, size: u64 },
    Header { indent: usize, name: String },
}

/// The mathematical view of a [`Line`].
pub enum LineModel {
    Entry { indent: int, kind: EntryKind, name: Seq<char>, size: int },
    Header { indent: int, name: Seq<char> },
}

impl View for Line {
    type V = LineModel;

    open spec fn view(&self) -> LineModel {
        match self {
            Line::Entry { indent, kind, name, size } => LineModel::Entry {
                indent: *indent as int,
                kind: *kind,
                name: name@,
                size: *size as int,
            },
            Line::Header { indent, name } => LineModel::Header {
                indent: *indent as int,
                name: name@,
            },
        }
    }
}

/// The name a line shows.
pub open spec fn line_name(l: LineModel) -> Seq<char> {
    match l {
        LineModel::Entry { name, .. } => name,
        LineModel::Header { name, .. } => name,
    }
}

/// The indent level of a line.
pub open spec fn line_indent(l: LineModel) -> int {
    match l {
        LineModel::Entry { indent, .. } => indent,
        LineModel::Header { indent, .. } => indent,
    }
}

/// Whether a line is an entry line of the given kind.
pub open spec fn is_kind_line(l: LineModel, k: EntryKind) -> bool {
    match l {
        LineModel::Entry { kind, .. } => kind == k,
        LineModel::Header { .. } => false,
    }
}

/// An entry belongs to the bucket of its kind unless it is hidden.
pub open spec fn keep(e: FsEntry, kind: EntryKind) -> bool {
    e.kind == kind && !is_hidden(e.name@)
}

/// The bucket of one kind: the visible entries of that kind, in
/// enumeration order.
pub open spec fn bucket(s: Seq<FsEntry>, kind: EntryKind) -> Seq<FsEntry> {
    s.filter(|e: FsEntry| keep(e, kind))
}

/// A bucket after sorting by the active key, or unchanged if none.
pub open spec fn arranged(s: Seq<FsEntry>, kind: EntryKind, o: Opts) -> Seq<FsEntry> {
    match active_key(o) {
        Some(k) => sort_seq(bucket(s, kind), k),
        None => bucket(s, kind),
    }
}

/// The entry line of one entry at one indent level.
pub open spec fn entry_line(e: FsEntry, indent: int) -> LineModel {
    LineModel::Entry { indent, kind: e.kind, name: e.name@, size: e.size as int }
}

/// The entry lines of a whole bucket.
pub open spec fn lines_of(s: Seq<FsEntry>, indent: int) -> Seq<LineModel> {
    s.map_values(|e: FsEntry| entry_line(e, indent))
}

/// The lines of one directory level: directories first when grouping
/// is on (suppressed by `filter_files`), then files (suppressed by
/// `filter_dirs`), then others (never suppressed), then directories
/// when grouping is off.
pub open spec fn level_lines(
    ds: Seq<FsEntry>,
    fs: Seq<FsEntry>,
    os: Seq<FsEntry>,
    o: Opts,
    indent: int,
) -> Seq<LineModel> {
    let dir_lines = if o.filter_files {
        Seq::<LineModel>::empty()
    } else {
        lines_of(ds, indent)
    };
    let file_lines = if o.filter_dirs {
        Seq::<LineModel>::empty()
    } else {
        lines_of(fs, indent)
    };
    let first = if o.group_dirs_first {
        dir_lines
    } else {
        Seq::<LineModel>::empty()
    };
    let last = if o.group_dirs_first {
        Seq::<LineModel>::empty()
    } else {
        dir_lines
    };
    first + file_lines + lines_of(os, indent) + last
}

/// Every line of a directory listing, in print order: the level's own
/// lines, then, when recursion is on, a header and the whole sublisting
/// of each directory of the level, in bucket order, one indent deeper.
pub open spec fn render_model(s: Seq<FsEntry>, o: Opts, indent: int) -> Seq<LineModel>
    decreases forest_size(s), 1int, 0int,
    via render_model_decreases
{
    let ds = arranged(s, EntryKind::Directory, o);
    let level = level_lines(
        ds,
        arranged(s, EntryKind::File, o),
        arranged(s, EntryKind::Other, o),
        o,
        indent,
    );
    if o.recursive {
        level + subtree_lines(ds, o, indent)
    } else {
        level
    }
}

/// The header and sublisting of each directory of a level, in order.
pub open spec fn subtree_lines(ds: Seq<FsEntry>, o: Opts, indent: int) -> Seq<LineModel>
    decreases forest_size(ds), 0int, ds.len(),
    via subtree_lines_decreases
{
    if ds.len() == 0 {
        Seq::empty()
    } else {
        seq![LineModel::Header { indent, name: ds[0].name@ }] + render_model(
            ds[0].children@,
            o,
            indent + 1,
        ) + subtree_lines(ds.drop_first(), o, indent)
    }
}

/// Sorting a bucket neither adds nor removes nodes.
pub proof fn lemma_forest_size_insert_sorted(x: FsEntry, s: Seq<FsEntry>, k: SortKey)
    ensures
        forest_size(insert_sorted(x, s, k)) == forest_size(s) + 1 + forest_size(x.children@),
    decreases s.len(),
{
    if s.len() == 0 {
        assert(insert_sorted(x, s, k) =~= s.push(x));
        lemma_forest_size_push(s, x);
    } else if crate::order::key_le(s.last(), x, k) {
        lemma_forest_size_push(s, x);
    } else {
        let dl = s.drop_last();
        lemma_forest_size_insert_sorted(x, dl, k);
        lemma_forest_size_push(insert_sorted(x, dl, k), s.last());
        assert(s =~= dl.push(s.last()));
        lemma_forest_size_push(dl, s.last());
    }
}

/// A sorted bucket holds exactly as many nodes as the unsorted one.
pub proof fn lemma_forest_size_sort_seq(s: Seq<FsEntry>, k: SortKey)
    ensures
        forest_size(sort_seq(s, k)) == forest_size(s),
    decreases s.len(),
{
    if s.len() > 0 {
        let dl = s.drop_last();
        lemma_forest_size_sort_seq(dl, k);
        lemma_forest_size_insert_sorted(s.last(), sort_seq(dl, k), k);
        assert(s =~= dl.push(s.last()));
        lemma_forest_size_push(dl, s.last());
    }
}

/// An arranged bucket holds no more nodes than the level it came from.
pub proof fn lemma_forest_size_arranged(s: Seq<FsEntry>, kind: EntryKind, o: Opts)
    ensures
        forest_size(arranged(s, kind, o)) <= forest_size(s),
{
    lemma_forest_size_filter(s, |e: FsEntry| keep(e, kind));
    match active_key(o) {
        Some(k) => {
            lemma_forest_size_sort_seq(bucket(s, kind), k);
        },
        None => {},
    }
}

#[via_fn]
proof fn render_model_decreases(s: Seq<FsEntry>, o: Opts, indent: int) {
    lemma_forest_size_arranged(s, EntryKind::Directory, o);
}

#[via_fn]
proof fn subtree_lines_decreases(ds: Seq<FsEntry>, o: Opts, indent: int) {
    if ds.len() > 0 {
        lemma_forest_size_index(ds, 0);
        assert(ds =~= seq![ds[0]] + ds.drop_first());
        lemma_forest_size_add(seq![ds[0]], ds.drop_first());
    }
}

} // verus!
