//! The tags of a store and how many memories carry each.

use crate::index::{Record, RecordView, record_views, contains_text};
use crate::order::{
    bytes_before, is_before, lemma_bytes_before_irreflexive, lemma_bytes_before_total,
    lemma_bytes_before_transitive,
};
use crate::ranking::{is_ranking, precedes, rank, RankKey};
use crate::types::texts;
use vstd::prelude::*;
use vstd::utf8::{encode_utf8, encode_utf8_decode_utf8};

verus! {

/// How many of `records` carry the stored tag `tag`.
pub open spec fn tag_count(records: Seq<RecordView>, tag: Seq<char>) -> nat
    decreases records.len(),
{
    if records.len() == 0 {
        0
    } else {
        tag_count(records.drop_last(), tag) + if records.last().memory.tags.contains(tag) {
            1nat
        } else {
            0nat
        }
    }
}

/// Whether some record carries the stored tag `tag`.
pub open spec fn in_use(records: Seq<RecordView>, tag: Seq<char>) -> bool {
    exists|i: int| 0 <= i < records.len() && (#[trigger] records[i]).memory.tags.contains(tag)
}

/// A tag is counted at least once exactly where some record carries it, and
/// never more often than there are records.
pub proof fn lemma_tag_count(records: Seq<RecordView>, tag: Seq<char>)
    ensures
        tag_count(records, tag) > 0 <==> in_use(records, tag),
        tag_count(records, tag) <= records.len(),
    decreases records.len(),
{
    if records.len() > 0 {
        let front = records.drop_last();
        lemma_tag_count(front, tag);
        if in_use(front, tag) {
            let i = choose|i: int| 0 <= i < front.len() && (#[trigger] front[i]).memory.tags.contains(tag);
            assert(records[i] == front[i]);
        }
        if in_use(records, tag) {
            let i = choose|i: int|
                0 <= i < records.len() && (#[trigger] records[i]).memory.tags.contains(tag);
            if i < front.len() {
                assert(front[i] == records[i]);
            }
        }
        if records.last().memory.tags.contains(tag) {
            assert(records[records.len() - 1] == records.last());
        }
    }
}

/// Counts the records that carry `tag`.
pub fn count_tag(records: &Vec<Record>, tag: &String) -> (c: usize)
    ensures
        c == tag_count(record_views(records@), tag@),
{
    let ghost views = record_views(records@);
    let n = records.len();
    let mut c: usize = 0;
    let mut i: usize = 0;
    assert(views.take(0) == Seq::<RecordView>::empty());
    while i < n
        invariant
            i <= n,
            n == records@.len(),
            views == record_views(records@),
            c == tag_count(views.take(i as int), tag@),
            c <= i,
        decreases n - i,
    {
        assert(views.take(i + 1).drop_last() == views.take(i as int));
        assert(views.take(i + 1).last().memory.tags == texts(records@[i as int].memory.tags@));
        if contains_text(&records[i].memory.tags, tag) {
            c += 1;
        }
        i += 1;
    }
    assert(views.take(n as int) == views);
    c
}

/// The tags in use, each once, in the order in which they first occur.
pub fn distinct_tags(records: &Vec<Record>) -> (out: Vec<String>)
    ensures
        texts(out@).no_duplicates(),
        forall|t: Seq<char>| texts(out@).contains(t) <==> in_use(record_views(records@), t),
{
    let ghost views = record_views(records@);
    let mut out: Vec<String> = Vec::new();
    let n = records.len();
    let mut i: usize = 0;
    while i < n
        invariant
            i <= n,
            n == records@.len(),
            views == record_views(records@),
            texts(out@).no_duplicates(),
            forall|t: Seq<char>| texts(out@).contains(t) <==> in_use(views.take(i as int), t),
        decreases n - i,
    {
        let tags = &records[i].memory.tags;
        let m = tags.len();
        let mut j: usize = 0;
        let ghost row = texts(tags@);
        assert(views[i as int].memory.tags == row);
        while j < m
            invariant
                j <= m,
                m == tags@.len(),
                i < n,
                n == records@.len(),
                views == record_views(records@),
                row == texts(tags@),
                views[i as int].memory.tags == row,
                texts(out@).no_duplicates(),
                forall|t: Seq<char>|
                    texts(out@).contains(t) <==> in_use(views.take(i as int), t) || row.take(
                        j as int,
                    ).contains(t),
            decreases m - j,
        {
            let ghost before = texts(out@);
            let ghost t0 = tags@[j as int]@;
            assert(row[j as int] == t0);
            if !contains_text(&out, &tags[j]) {
                out.push(tags[j].clone());
                assert(texts(out@) == before.push(t0));
            }
            proof {
                let after = texts(out@);
                assert(row.take(j + 1) == row.take(j as int).push(t0));
                assert forall|t: Seq<char>| after.contains(t) <==> in_use(views.take(i as int), t)
                    || row.take(j + 1).contains(t) by {
                    if t == t0 {
                        assert(row.take(j + 1)[j as int] == t0);
                        if before.contains(t0) {
                        } else {
                            assert(after[after.len() - 1] == t0);
                        }
                    } else {
                        let wide = row.take(j + 1);
                        let narrow = row.take(j as int);
                        if wide.contains(t) {
                            let k = choose|k: int| 0 <= k < wide.len() && wide[k] == t;
                            assert(narrow[k] == t);
                        }
                        if narrow.contains(t) {
                            let k = choose|k: int| 0 <= k < narrow.len() && narrow[k] == t;
                            assert(wide[k] == t);
                        }
                        if after.contains(t) {
                            let k = choose|k: int| 0 <= k < after.len() && after[k] == t;
                            assert(before[k] == t);
                        }
                        if before.contains(t) {
                            let k = choose|k: int| 0 <= k < before.len() && before[k] == t;
                            assert(after[k] == t);
                        }
                    }
                }
            }
            j += 1;
        }
        proof {
            assert(row.take(m as int) == row);
            assert forall|t: Seq<char>| texts(out@).contains(t) <==> in_use(views.take(i + 1), t) by {
                let cur = views.take(i + 1);
                let prev = views.take(i as int);
                if in_use(prev, t) {
                    let k = choose|k: int| 0 <= k < prev.len() && (#[trigger] prev[k]).memory.tags.contains(t);
                    assert(cur[k] == prev[k]);
                }
                if row.contains(t) {
                    assert(cur[i as int].memory.tags.contains(t));
                }
                if in_use(cur, t) {
                    let k = choose|k: int| 0 <= k < cur.len() && (#[trigger] cur[k]).memory.tags.contains(t);
                    if k < i {
                        assert(prev[k] == cur[k]);
                    }
                }
            }
        }
        i += 1;
    }
    assert(views.take(n as int) == views);
    out
}

/// A tag with the number of memories that carry it.
#[derive(Debug)]
pub struct TagCount {
    pub tag: String,
    pub count: usize,
}

/// Whether the entry `a` comes before the entry `b`: it has the greater
/// count, or the same count and the lesser tag by bytes.
pub open spec fn tag_before(a: (Seq<char>, nat), b: (Seq<char>, nat)) -> bool {
    a.1 > b.1 || (a.1 == b.1 && bytes_before(encode_utf8(a.0), encode_utf8(b.0)))
}

impl RankKey for TagCount {
    open spec fn outranks(&self, other: &Self) -> bool {
        tag_before((self.tag@, self.count as nat), (other.tag@, other.count as nat))
    }

    fn ranks_ahead(&self, other: &Self) -> (b: bool) {
        self.count > other.count || (self.count == other.count && is_before(
            self.tag.as_str().as_bytes(),
            other.tag.as_str().as_bytes(),
        ))
    }

    proof fn lemma_strict_weak_order(a: &Self, b: &Self, c: &Self) {
        let x = encode_utf8(a.tag@);
        let y = encode_utf8(b.tag@);
        let z = encode_utf8(c.tag@);
        lemma_bytes_before_irreflexive(x);
        lemma_bytes_before_irreflexive(y);
        lemma_bytes_before_total(x, y);
        lemma_bytes_before_total(y, z);
        if bytes_before(x, y) && bytes_before(y, z) {
            lemma_bytes_before_transitive(x, y, z);
        }
        if bytes_before(z, y) && bytes_before(y, x) {
            lemma_bytes_before_transitive(z, y, x);
            if bytes_before(x, z) {
                lemma_bytes_before_transitive(x, z, x);
            }
        }
    }
}

/// The entries of a table as mathematical values.
pub open spec fn table_view(table: Seq<(String, usize)>) -> Seq<(Seq<char>, nat)> {
    Seq::new(table.len(), |k: int| (table[k].0@, table[k].1 as nat))
}

/// Whether `table` is the table of the tags of `records`: each tag in use
/// once, with the number of records that carry it, the greatest count first
/// and equal counts by tag.
pub open spec fn is_tag_table(records: Seq<RecordView>, table: Seq<(Seq<char>, nat)>) -> bool {
    &&& forall|k: int|
        0 <= k < table.len() ==> (#[trigger] table[k]).1 == tag_count(records, table[k].0)
            && table[k].1 > 0
    &&& forall|t: Seq<char>|
        in_use(records, t) ==> exists|k: int| 0 <= k < table.len() && (#[trigger] table[k]).0 == t
    &&& forall|a: int, b: int|
        0 <= a < b < table.len() ==> tag_before(#[trigger] table[a], #[trigger] table[b])
}

/// The table of the tags of `records`.
pub fn tag_table(records: &Vec<Record>) -> (out: Vec<(String, usize)>)
    ensures
        is_tag_table(record_views(records@), table_view(out@)),
{
    let ghost views = record_views(records@);
    let names = distinct_tags(records);
    let mut tally: Vec<TagCount> = Vec::new();
    let n = names.len();
    let mut k: usize = 0;
    while k < n
        invariant
            k <= n,
            n == names@.len(),
            views == record_views(records@),
            tally@.len() == k,
            forall|i: int|
                0 <= i < k ==> (#[trigger] tally@[i]).tag@ == names@[i]@ && tally@[i].count
                    == tag_count(views, names@[i]@),
        decreases n - k,
    {
        let count = count_tag(records, &names[k]);
        tally.push(TagCount { tag: names[k].clone(), count });
        k += 1;
    }
    let order = rank(&tally);
    let mut out: Vec<(String, usize)> = Vec::new();
    let mut a: usize = 0;
    while a < n
        invariant
            a <= n,
            n == order@.len(),
            n == tally@.len(),
            is_ranking(tally@, order@),
            out@.len() == a,
            forall|i: int|
                0 <= i < a ==> (#[trigger] out@[i]).0@ == tally@[order@[i] as int].tag@ && out@[i].1
                    == tally@[order@[i] as int].count,
        decreases n - a,
    {
        let p = order[a];
        out.push((tally[p].tag.clone(), tally[p].count));
        a += 1;
    }
    proof {
        let table = table_view(out@);
        assert forall|i: int| 0 <= i < table.len() implies (#[trigger] table[i]).1 == tag_count(
            views,
            table[i].0,
        ) && table[i].1 > 0 by {
            let p = order@[i] as int;
            assert(tally@[p].tag@ == names@[p]@);
            assert(texts(names@)[p] == names@[p]@);
            assert(texts(names@).contains(names@[p]@));
            lemma_tag_count(views, names@[p]@);
        }
        assert forall|t: Seq<char>| in_use(views, t) implies exists|i: int|
            0 <= i < table.len() && (#[trigger] table[i]).0 == t by {
            assert(texts(names@).contains(t));
            let p = choose|p: int| 0 <= p < texts(names@).len() && texts(names@)[p] == t;
            assert(crate::ranking::listed(order@, p));
            let i = choose|i: int| 0 <= i < order@.len() && #[trigger] order@[i] == p;
            assert(table[i].0 == t);
        }
        assert forall|i: int, j: int| 0 <= i < j < table.len() implies tag_before(
            #[trigger] table[i],
            #[trigger] table[j],
        ) by {
            let p = order@[i] as int;
            let q = order@[j] as int;
            assert(precedes(tally@, p, q));
            assert(p != q);
            if !tally@[p].outranks(&tally@[q]) {
                let x = encode_utf8(tally@[p].tag@);
                let y = encode_utf8(tally@[q].tag@);
                lemma_bytes_before_total(x, y);
                encode_utf8_decode_utf8(tally@[p].tag@);
                encode_utf8_decode_utf8(tally@[q].tag@);
                assert(texts(names@)[p] == texts(names@)[q]);
            }
        }
    }
    out
}

} // verus!
