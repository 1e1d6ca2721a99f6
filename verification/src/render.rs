//! The executable walk over a directory snapshot, verified against
//! the listing model.

use vstd::prelude::*;
use crate::entry::{EntryKind, FsEntry, forest_size, is_hidden};
use crate::entry::{lemma_forest_size_add, lemma_forest_size_index};
use crate::listing::{
    Line, LineModel, arranged, bucket, entry_line, keep, level_lines, lines_of,
    lemma_forest_size_arranged, render_model, subtree_lines,
};
use crate::options::{Opts, active_key};
use crate::order::{SortKey, sort_entries, sort_seq};

verus! {

/// The views of a sequence of lines.
pub open spec fn models(s: Seq<Line>) -> Seq<LineModel> {
    s.map_values(|l: Line| l@)
}

proof fn lemma_models_push(s: Seq<Line>, x: Line)
    ensures
        models(s.push(x)) == models(s).push(x@),
{
    assert(models(s.push(x)) =~= models(s).push(x@));
}

proof fn lemma_models_add(a: Seq<Line>, b: Seq<Line>)
    ensures
        models(a + b) == models(a) + models(b),
{
    assert(models(a + b) =~= models(a) + models(b));
}

/// Whether an entry is kept by the bucket of the given kind.
fn keeps(e: &FsEntry, kind: EntryKind) -> (r: bool)
    ensures
        r == keep(*e, kind),
{
    e.kind == kind && !crate::entry::name_is_hidden(&e.name)
}

/// Splits one directory level into its three buckets — directories,
/// regular files, others — dropping hidden entries, keeping order.
pub fn partition(entries: Vec<FsEntry>) -> (r: (Vec<FsEntry>, Vec<FsEntry>, Vec<FsEntry>))
    ensures
        r.0@ == bucket(entries@, EntryKind::Directory),
        r.1@ == bucket(entries@, EntryKind::File),
        r.2@ == bucket(entries@, EntryKind::Other),
{
    let ghost orig = entries@;
    let mut entries = entries;
    let mut dirs: Vec<FsEntry> = Vec::new();
    let mut files: Vec<FsEntry> = Vec::new();
    let mut others: Vec<FsEntry> = Vec::new();
    let ghost mut done: Seq<FsEntry> = Seq::empty();
    proof {
        assert(done + entries@ =~= orig);
        lemma_bucket_empty(EntryKind::Directory);
        lemma_bucket_empty(EntryKind::File);
        lemma_bucket_empty(EntryKind::Other);
    }
    while entries.len() > 0
        invariant
            done + entries@ =~= orig,
            dirs@ == bucket(done, EntryKind::Directory),
            files@ == bucket(done, EntryKind::File),
            others@ == bucket(done, EntryKind::Other),
        decreases entries@.len(),
    {
        let e = entries.remove(0);
        proof {
            let ghost done2 = done.push(e);
            assert(done2 + entries@ =~= orig);
            lemma_bucket_push(done, e, EntryKind::Directory);
            lemma_bucket_push(done, e, EntryKind::File);
            lemma_bucket_push(done, e, EntryKind::Other);
        }
        let is_dir = keeps(&e, EntryKind::Directory);
        let is_file = keeps(&e, EntryKind::File);
        let is_other = keeps(&e, EntryKind::Other);
        proof {
            done = done.push(e);
        }
        if is_dir {
            dirs.push(e);
        } else if is_file {
            files.push(e);
        } else if is_other {
            others.push(e);
        }
    }
    proof {
        assert(done =~= orig);
    }
    (dirs, files, others)
}

/// The empty level has empty buckets.
proof fn lemma_bucket_empty(kind: EntryKind)
    ensures
        bucket(Seq::empty(), kind) == Seq::<FsEntry>::empty(),
{
    reveal(Seq::filter);
}

/// Extending a level by one entry extends exactly the bucket the
/// entry belongs to.
proof fn lemma_bucket_push(s: Seq<FsEntry>, e: FsEntry, kind: EntryKind)
    ensures
        bucket(s.push(e), kind) == if keep(e, kind) {
            bucket(s, kind).push(e)
        } else {
            bucket(s, kind)
        },
{
    reveal(Seq::filter);
    assert(s.push(e).drop_last() =~= s);
    assert(s.push(e).last() == e);
}

/// Sorts one bucket by the active key, or leaves it in enumeration
/// order when no sort option is set.
pub fn arrange_bucket(v: Vec<FsEntry>, o: &Opts) -> (r: Vec<FsEntry>)
    ensures
        r@ == match active_key(*o) {
            Some(k) => sort_seq(v@, k),
            None => v@,
        },
{
    if o.sort_by_name {
        sort_entries(v, SortKey::Name)
    } else if o.sort_by_size {
        sort_entries(v, SortKey::Size)
    } else if o.sort_by_date {
        sort_entries(v, SortKey::Date)
    } else {
        v
    }
}

/// Appends the entry line of every entry of a bucket.
fn push_entry_lines(out: &mut Vec<Line>, b: &Vec<FsEntry>, indent: usize)
    ensures
        models(final(out)@) == models(old(out)@) + lines_of(b@, indent as int),
{
    let mut i: usize = 0;
    proof {
        assert(lines_of(b@.take(0), indent as int) =~= Seq::empty());
        assert(models(out@) + Seq::<LineModel>::empty() =~= models(out@));
    }
    while i < b.len()
        invariant
            i <= b@.len(),
            models(out@) == models(old(out)@) + lines_of(b@.take(i as int), indent as int),
        decreases b@.len() - i,
    {
        let line = Line::Entry {
            indent,
            kind: b[i].kind,
            name: b[i].name.clone(),
            size: b[i].size,
        };
        proof {
            lemma_models_push(out@, line);
            assert(line@ == entry_line(b@[i as int], indent as int));
            assert(lines_of(b@.take(i + 1), indent as int) =~= lines_of(
                b@.take(i as int),
                indent as int,
            ).push(entry_line(b@[i as int], indent as int)));
        }
        out.push(line);
        i += 1;
    }
    proof {
        assert(b@.take(b@.len() as int) =~= b@);
    }
}

/// Renders a whole directory snapshot: classifies one level into
/// buckets, sorts them, lists them under the ordering and filter
/// rules, and, when recursion is on, appends a header and the
/// sublisting of every directory of the level, one indent deeper.
#[verifier::loop_isolation(false)]
pub fn render(entries: Vec<FsEntry>, o: &Opts, indent: usize) -> (out: Vec<Line>)
    requires
        indent + forest_size(entries@) <= usize::MAX,
    ensures
        models(out@) == render_model(entries@, *o, indent as int),
    decreases forest_size(entries@),
{
    let ghost orig = entries@;
    let (dirs, files, others) = partition(entries);
    let mut dirs = arrange_bucket(dirs, o);
    let files = arrange_bucket(files, o);
    let others = arrange_bucket(others, o);
    proof {
        assert(dirs@ == arranged(orig, EntryKind::Directory, *o));
        assert(files@ == arranged(orig, EntryKind::File, *o));
        assert(others@ == arranged(orig, EntryKind::Other, *o));
    }
    let ghost ds = dirs@;
    let ghost level = level_lines(ds, files@, others@, *o, indent as int);
    let mut out: Vec<Line> = Vec::new();
    proof {
        assert(models(out@) =~= Seq::<LineModel>::empty());
    }
    if o.group_dirs_first && !o.filter_files {
        push_entry_lines(&mut out, &dirs, indent);
    }
    if !o.filter_dirs {
        push_entry_lines(&mut out, &files, indent);
    }
    push_entry_lines(&mut out, &others, indent);
    if !o.group_dirs_first && !o.filter_files {
        push_entry_lines(&mut out, &dirs, indent);
    }
    proof {
        assert(models(out@) =~= level);
    }
    if o.recursive {
        proof {
            lemma_forest_size_arranged(orig, EntryKind::Directory, *o);
        }
        while dirs.len() > 0
            invariant
                o.recursive,
                models(out@) + subtree_lines(dirs@, *o, indent as int) == render_model(
                    orig,
                    *o,
                    indent as int,
                ),
                forest_size(dirs@) <= forest_size(orig),
                indent + forest_size(orig) <= usize::MAX,
            decreases dirs@.len(),
        {
            let ghost before = dirs@;
            proof {
                lemma_forest_size_index(before, 0);
                assert(before =~= seq![before[0]] + before.drop_first());
                lemma_forest_size_add(seq![before[0]], before.drop_first());
            }
            let d = dirs.remove(0);
            proof {
                assert(dirs@ =~= before.drop_first());
            }
            proof {
                assert(d == before[0]);
                assert(forest_size(d.children@) < forest_size(orig));
            }
            let header = Line::Header { indent, name: d.name.clone() };
            let ghost out0 = out@;
            out.push(header);
            let mut sub = render(d.children, o, indent + 1);
            let ghost out1 = out@;
            let ghost subv = sub@;
            out.append(&mut sub);
            proof {
                lemma_models_push(out0, header);
                lemma_models_add(out1, subv);
                let h = LineModel::Header { indent: indent as int, name: before[0].name@ };
                assert(header@ == h);
                assert(subtree_lines(before, *o, indent as int) == seq![h] + render_model(
                    before[0].children@,
                    *o,
                    indent as int + 1,
                ) + subtree_lines(before.drop_first(), *o, indent as int));
                assert(models(out@) =~= models(out0) + (seq![h] + models(subv)));
                assert(models(out@) + subtree_lines(dirs@, *o, indent as int) =~= models(out0)
                    + subtree_lines(before, *o, indent as int));
            }
        }
        proof {
            assert(subtree_lines(dirs@, *o, indent as int) =~= Seq::empty());
            assert(models(out@) + Seq::<LineModel>::empty() =~= models(out@));
        }
    }
    out
}

} // verus!
