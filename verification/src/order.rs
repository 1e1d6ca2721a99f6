//! Sort keys and the verified sorting of entry buckets.

use vstd::prelude::*;
use vstd::string::StrSliceExecFns;
use vstd::multiset::Multiset;
use crate::entry::FsEntry;

verus! {

/// The single active sort criterion of a listing.
#[derive(Clone, Copy, PartialEq, Eq, Structural, Debug)]
pub enum SortKey {
    Name,
    Size,
    Date,
}

/// Lexicographic order on character sequences, by code point.
pub open spec fn lex_le(a: Seq<char>, b: Seq<char>) -> bool
    decreases a.len(),
{
    if a.len() == 0 {
        true
    } else if b.len() == 0 {
        false
    } else if (a[0] as u32) < (b[0] as u32) {
        true
    } else if (a[0] as u32) > (b[0] as u32) {
        false
    } else {
        lex_le(a.drop_first(), b.drop_first())
    }
}

/// Any two character sequences are comparable.
pub proof fn lemma_lex_le_total(a: Seq<char>, b: Seq<char>)
    ensures
        lex_le(a, b) || lex_le(b, a),
    decreases a.len(),
{
    if a.len() == 0 || b.len() == 0 {
    } else if (a[0] as u32) == (b[0] as u32) {
        lemma_lex_le_total(a.drop_first(), b.drop_first());
    }
}

/// Order of two entries under the chosen key: name lexicographic,
/// size numeric, or modification time chronological, all ascending.
pub open spec fn key_le(a: FsEntry, b: FsEntry, k: SortKey) -> bool {
    match k {
        SortKey::Name => lex_le(a.name@, b.name@),
        SortKey::Size => a.size <= b.size,
        SortKey::Date => a.modified <= b.modified,
    }
}

/// Any two entries are comparable under any key.
pub proof fn lemma_key_le_total(a: FsEntry, b: FsEntry, k: SortKey)
    ensures
        key_le(a, b, k) || key_le(b, a, k),
{
    if k == SortKey::Name {
        lemma_lex_le_total(a.name@, b.name@);
    }
}

/// A bucket is monotonically ordered when each entry is `key_le` its
/// successor.
pub open spec fn ordered_by(s: Seq<FsEntry>, k: SortKey) -> bool {
    forall|i: int| 0 <= i < s.len() - 1 ==> #[trigger] key_le(s[i], s[i + 1], k)
}

/// Where an entry lands when inserted into an already ordered bucket:
/// after every run of entries it is not below, scanning from the back.
pub open spec fn insert_sorted(x: FsEntry, s: Seq<FsEntry>, k: SortKey) -> Seq<FsEntry>
    decreases s.len(),
{
    if s.len() == 0 {
        seq![x]
    } else if key_le(s.last(), x, k) {
        s.push(x)
    } else {
        insert_sorted(x, s.drop_last(), k).push(s.last())
    }
}

/// Insertion sort of a bucket, the mathematical model of `sort_entries`.
pub open spec fn sort_seq(s: Seq<FsEntry>, k: SortKey) -> Seq<FsEntry>
    decreases s.len(),
{
    if s.len() == 0 {
        s
    } else {
        insert_sorted(s.last(), sort_seq(s.drop_last(), k), k)
    }
}

/// Inserting into an ordered bucket keeps it ordered, adds exactly the
/// new entry to its contents, and ends in either the new entry or the
/// old last one.
pub proof fn lemma_insert_sorted(x: FsEntry, s: Seq<FsEntry>, k: SortKey)
    requires
        ordered_by(s, k),
    ensures
        ordered_by(insert_sorted(x, s, k), k),
        insert_sorted(x, s, k).len() == s.len() + 1,
        insert_sorted(x, s, k).to_multiset() == s.to_multiset().insert(x),
        insert_sorted(x, s, k).last() == x || (s.len() > 0 && insert_sorted(x, s, k).last()
            == s.last()),
    decreases s.len(),
{
    broadcast use vstd::seq_lib::group_to_multiset_ensures;

    let out = insert_sorted(x, s, k);
    if s.len() == 0 {
        assert(out =~= Seq::empty().push(x));
        assert(Seq::<FsEntry>::empty().to_multiset() =~= Multiset::empty());
        assert(out.to_multiset() =~= s.to_multiset().insert(x));
    } else if key_le(s.last(), x, k) {
        assert(forall|i: int| 0 <= i < s.len() - 1 ==> #[trigger] out[i] == s[i] && out[i + 1]
            == s[i + 1]);
    } else {
        let dl = s.drop_last();
        assert(ordered_by(dl, k)) by {
            assert(forall|i: int| 0 <= i < dl.len() - 1 ==> #[trigger] key_le(dl[i], dl[i + 1], k)
                == key_le(s[i], s[i + 1], k));
        }
        lemma_insert_sorted(x, dl, k);
        let inner = insert_sorted(x, dl, k);
        lemma_key_le_total(x, s.last(), k);
        assert(key_le(x, s.last(), k));
        if inner.last() == x {
        } else {
            assert(dl.len() > 0 && inner.last() == dl.last());
            assert(key_le(s[s.len() - 2], s[s.len() - 2 + 1], k));
            assert(dl[dl.len() - 1] == s[s.len() - 2]);
        }
        assert(key_le(inner.last(), s.last(), k));
        assert(ordered_by(out, k)) by {
            assert(forall|i: int| 0 <= i < inner.len() - 1 ==> #[trigger] key_le(out[i], out[i + 1],
                k) == key_le(inner[i], inner[i + 1], k));
            assert(out[out.len() - 2] == inner.last() && out[out.len() - 1] == s.last());
        }
        assert(s =~= dl.push(s.last()));
        assert(dl.push(s.last()).to_multiset() =~= dl.to_multiset().insert(s.last()));
        assert(inner.push(s.last()).to_multiset() =~= inner.to_multiset().insert(s.last()));
        assert(out.to_multiset() =~= inner.to_multiset().insert(s.last()));
        assert(out.to_multiset() =~= s.to_multiset().insert(x)) by {
            assert(inner.to_multiset() == dl.to_multiset().insert(x));
            assert(dl.to_multiset().insert(x).insert(s.last()) =~= dl.to_multiset().insert(
                s.last(),
            ).insert(x));
        }
    }
}

/// The sorted bucket is ordered and holds exactly the entries of the
/// unsorted one: sorting never loses, invents, or re-buckets an entry.
pub proof fn lemma_sort_seq(s: Seq<FsEntry>, k: SortKey)
    ensures
        ordered_by(sort_seq(s, k), k),
        sort_seq(s, k).len() == s.len(),
        sort_seq(s, k).to_multiset() == s.to_multiset(),
    decreases s.len(),
{
    broadcast use vstd::seq_lib::group_to_multiset_ensures;

    if s.len() > 0 {
        let dl = s.drop_last();
        lemma_sort_seq(dl, k);
        lemma_insert_sorted(s.last(), sort_seq(dl, k), k);
        assert(s =~= dl.push(s.last()));
        assert(dl.push(s.last()).to_multiset() =~= dl.to_multiset().insert(s.last()));
    }
}

/// A sorted bucket holds an entry exactly when the unsorted one does.
pub proof fn lemma_sort_seq_contains(s: Seq<FsEntry>, k: SortKey, e: FsEntry)
    ensures
        sort_seq(s, k).contains(e) <==> s.contains(e),
{
    broadcast use vstd::seq_lib::group_to_multiset_ensures;

    lemma_sort_seq(s, k);
    assert(s.contains(e) <==> s.to_multiset().count(e) > 0);
    assert(sort_seq(s, k).contains(e) <==> sort_seq(s, k).to_multiset().count(e) > 0);
}

/// Compares two names lexicographically by code point.
pub fn name_le(a: &String, b: &String) -> (r: bool)
    ensures
        r == lex_le(a@, b@),
{
    let alen = a.as_str().unicode_len();
    let blen = b.as_str().unicode_len();
    let mut i: usize = 0;
    proof {
        assert(a@.skip(0) =~= a@);
        assert(b@.skip(0) =~= b@);
    }
    while i < alen && i < blen
        invariant
            i <= alen,
            i <= blen,
            alen == a@.len(),
            blen == b@.len(),
            lex_le(a@, b@) == lex_le(a@.skip(i as int), b@.skip(i as int)),
        decreases alen - i,
    {
        let ca = a.as_str().get_char(i);
        let cb = b.as_str().get_char(i);
        proof {
            assert(a@.skip(i as int)[0] == a@[i as int]);
            assert(b@.skip(i as int)[0] == b@[i as int]);
        }
        if (ca as u32) < (cb as u32) {
            return true;
        }
        if (ca as u32) > (cb as u32) {
            return false;
        }
        proof {
            assert(a@.skip(i as int).drop_first() =~= a@.skip(i + 1));
            assert(b@.skip(i as int).drop_first() =~= b@.skip(i + 1));
        }
        i += 1;
    }
    alen <= blen
}

/// Compares two entries under the chosen key.
pub fn entry_le(a: &FsEntry, b: &FsEntry, k: SortKey) -> (r: bool)
    ensures
        r == key_le(*a, *b, k),
{
    match k {
        SortKey::Name => name_le(&a.name, &b.name),
        SortKey::Size => a.size <= b.size,
        SortKey::Date => a.modified <= b.modified,
    }
}

/// Inserts an entry into an ordered bucket, scanning from the back.
pub fn insert_entry(v: Vec<FsEntry>, x: FsEntry, k: SortKey) -> (r: Vec<FsEntry>)
    ensures
        r@ == insert_sorted(x, v@, k),
    decreases v@.len(),
{
    let mut v = v;
    if v.len() == 0 {
        v.push(x);
        v
    } else if entry_le(&v[v.len() - 1], &x, k) {
        proof {
            assert(v@[v@.len() - 1] == v@.last());
        }
        v.push(x);
        v
    } else {
        let last = v.pop().unwrap();
        let mut r = insert_entry(v, x, k);
        r.push(last);
        r
    }
}

/// Sorts a bucket of entries by the chosen key.
pub fn sort_entries(v: Vec<FsEntry>, k: SortKey) -> (r: Vec<FsEntry>)
    ensures
        r@ == sort_seq(v@, k),
    decreases v@.len(),
{
    let mut v = v;
    match v.pop() {
        None => v,
        Some(x) => {
            let sorted = sort_entries(v, k);
            insert_entry(sorted, x, k)
        },
    }
}

} // verus!
