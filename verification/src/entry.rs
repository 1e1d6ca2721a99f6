//! The data model: a directory entry with its kind and subtree.

use vstd::prelude::*;
use vstd::string::StrSliceExecFns;

verus! {

/// Kind of a filesystem entry: a directory, a regular file, or
/// anything else (symlink, special file, ...).
#[derive(Clone, Copy, PartialEq, Eq, Structural, Debug)]
pub enum EntryKind {
    Directory,
    File,
    Other,
}

/// One filesystem entry, as plain data.  `modified` is seconds since
/// the epoch (zero when the timestamp could not be read).  `children`
/// holds the subtree below a directory entry and is empty for
/// non-directories and for directories that were not read.
pub struct FsEntry {
    pub name: String,
    pub size: u64,
    pub modified: u64,
    pub kind: EntryKind,
    pub children: Vec<FsEntry>,
}

/// An entry is hidden when its name starts with the marker character.
pub open spec fn is_hidden(name: Seq<char>) -> bool {
    name.len() > 0 && name[0] == crate::hidden_marker()
}

/// Number of nodes in a forest, counting every entry of every subtree.
pub open spec fn forest_size(s: Seq<FsEntry>) -> nat
    decreases s,
{
    if s.len() == 0 {
        0
    } else {
        1 + forest_size(s[0].children@) + forest_size(s.drop_first())
    }
}

/// Node counts add up over concatenation of forests.
pub proof fn lemma_forest_size_add(a: Seq<FsEntry>, b: Seq<FsEntry>)
    ensures
        forest_size(a + b) == forest_size(a) + forest_size(b),
    decreases a.len(),
{
    if a.len() == 0 {
        assert(a + b =~= b);
    } else {
        assert((a + b).drop_first() =~= a.drop_first() + b);
        assert((a + b)[0] == a[0]);
        lemma_forest_size_add(a.drop_first(), b);
    }
}

/// Appending one entry adds that entry and its subtree to the count.
pub proof fn lemma_forest_size_push(s: Seq<FsEntry>, x: FsEntry)
    ensures
        forest_size(s.push(x)) == forest_size(s) + 1 + forest_size(x.children@),
{
    assert(s.push(x) =~= s + seq![x]);
    lemma_forest_size_add(s, seq![x]);
    assert(seq![x].drop_first() =~= Seq::<FsEntry>::empty());
    assert(forest_size(Seq::<FsEntry>::empty()) == 0);
    assert(seq![x][0] == x);
    assert(forest_size(seq![x]) == 1 + forest_size(x.children@));
}

/// The subtree below any entry of a forest is strictly smaller than
/// the forest.
pub proof fn lemma_forest_size_index(s: Seq<FsEntry>, i: int)
    requires
        0 <= i < s.len(),
    ensures
        forest_size(s[i].children@) < forest_size(s),
    decreases i,
{
    if i == 0 {
    } else {
        lemma_forest_size_index(s.drop_first(), i - 1);
        assert(s.drop_first()[i - 1] == s[i]);
    }
}

/// The subtree below any member of a forest is strictly smaller than
/// the forest.
pub proof fn lemma_forest_size_contains(s: Seq<FsEntry>, e: FsEntry)
    requires
        s.contains(e),
    ensures
        forest_size(e.children@) < forest_size(s),
{
    let i = choose|i: int| 0 <= i < s.len() && s[i] == e;
    lemma_forest_size_index(s, i);
}

/// Keeping only some entries of a forest cannot grow the node count.
pub proof fn lemma_forest_size_filter(s: Seq<FsEntry>, pred: spec_fn(FsEntry) -> bool)
    ensures
        forest_size(s.filter(pred)) <= forest_size(s),
    decreases s.len(),
{
    reveal(Seq::filter);
    if s.len() > 0 {
        let dl = s.drop_last();
        lemma_forest_size_filter(dl, pred);
        assert(s =~= dl.push(s.last()));
        lemma_forest_size_push(dl, s.last());
        if pred(s.last()) {
            lemma_forest_size_push(dl.filter(pred), s.last());
        }
    }
}

/// Counts the nodes of a forest, `None` when the count would not fit
/// in `usize`.
pub fn forest_node_count(entries: &Vec<FsEntry>) -> (r: Option<usize>)
    ensures
        match r {
            Some(n) => n == forest_size(entries@),
            None => forest_size(entries@) > usize::MAX,
        },
    decreases forest_size(entries@),
{
    let mut count: usize = 0;
    let mut i: usize = 0;
    while i < entries.len()
        invariant
            i <= entries@.len(),
            count == forest_size(entries@.take(i as int)),
            forest_size(entries@.take(i as int)) <= forest_size(entries@),
        decreases entries@.len() - i,
    {
        proof {
            lemma_forest_size_index(entries@, i as int);
            assert(entries@.take(i + 1) =~= entries@.take(i as int).push(entries@[i as int]));
            lemma_forest_size_push(entries@.take(i as int), entries@[i as int]);
            lemma_forest_size_prefix(entries@, i + 1);
        }
        let sub = match forest_node_count(&entries[i].children) {
            Some(n) => n,
            None => {
                return None;
            },
        };
        if count == usize::MAX {
            return None;
        }
        count += 1;
        if sub > usize::MAX - count {
            return None;
        }
        count += sub;
        i += 1;
    }
    proof {
        assert(entries@.take(entries@.len() as int) =~= entries@);
    }
    Some(count)
}

/// A prefix of a forest never holds more nodes than the whole.
pub proof fn lemma_forest_size_prefix(s: Seq<FsEntry>, i: int)
    requires
        0 <= i <= s.len(),
    ensures
        forest_size(s.take(i)) <= forest_size(s),
{
    assert(s =~= s.take(i) + s.skip(i));
    lemma_forest_size_add(s.take(i), s.skip(i));
}

/// Checks whether a name is hidden.
pub fn name_is_hidden(name: &String) -> (r: bool)
    ensures
        r == is_hidden(name@),
{
    if name.as_str().unicode_len() == 0 {
        false
    } else {
        name.as_str().get_char(0) == '.'
    }
}

/// Whether a walk should read the contents of an entry: only visible
/// directories are descended into, and only when recursion is on.
pub fn should_descend(kind: EntryKind, name: &String, recursive: bool) -> (r: bool)
    ensures
        r == (recursive && kind == EntryKind::Directory && !is_hidden(name@)),
{
    recursive && kind == EntryKind::Directory && !name_is_hidden(name)
}

} // verus!
