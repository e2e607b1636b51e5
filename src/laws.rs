//! Laws of the summary: what holds of every stream of lines and batches.

use vstd::prelude::*;
use crate::category::Category;
use crate::classify::{batch_of, batch_view, batches_of, category_of, slot_of, strings_view, FieldResult, Record, Slot};
use crate::json::{member_of, parsed};
use crate::summary::{
    holds, lemma_map_of_ext, lemma_map_of_holds, map_of, merged, merged_rel, observed_any,
    observed_in, summary_of,
};

verus! {

/// Whether `line` is JSON whose member `key` has a category other than
/// `Absent`.
pub open spec fn present(line: Seq<char>, key: Seq<char>) -> bool {
    match parsed(line) {
        Some(doc) => category_of(member_of(doc, key)) != Category::Absent,
        None => false,
    }
}

/// The requested names that some line gives a category other than `Absent`.
pub open spec fn present_names(lines: Seq<Seq<char>>, keys: Seq<Seq<char>>) -> Set<Seq<char>> {
    keys.to_set().filter(
        |k: Seq<char>| exists|i: int| 0 <= i < lines.len() && #[trigger] present(lines[i], k),
    )
}

/// Classifying the same record twice gives batches with the same content:
/// any two results that meet the contract of `Record::classify` agree.
pub proof fn lemma_classify_repeatable(
    r: Record,
    first: Seq<Option<FieldResult>>,
    second: Seq<Option<FieldResult>>,
)
    requires
        batch_view(first) == batch_of(r.line@, strings_view(r.keys@)),
        batch_view(second) == batch_of(r.line@, strings_view(r.keys@)),
    ensures
        batch_view(first) == batch_view(second),
        first.len() == second.len(),
{
    assert(first.len() == batch_view(first).len());
    assert(second.len() == batch_view(second).len());
}

/// Merging batches in two runs, one after the other, gives what merging
/// them in one run gives: a bounded pipeline that drains its work in
/// chunks ends with the summary of an unbounded one.
pub proof fn lemma_merge_in_chunks(
    m: Map<Seq<char>, Set<Category>>,
    bs1: Seq<Seq<Slot>>,
    bs2: Seq<Seq<Slot>>,
)
    ensures
        merged(merged(m, bs1), bs2) == merged(m, bs1 + bs2),
{
    lemma_map_of_holds(merged_rel(m, bs1));
    let all = bs1 + bs2;
    assert forall|k: Seq<char>, c: Category|
        #[trigger] observed_any(all, k, c) == (observed_any(bs1, k, c) || observed_any(bs2, k, c)) by {
        if observed_any(bs1, k, c) {
            let i = choose|i: int| 0 <= i < bs1.len() && #[trigger] observed_in(bs1[i], k, c);
            assert(all[i] == bs1[i]);
        }
        if observed_any(bs2, k, c) {
            let i = choose|i: int| 0 <= i < bs2.len() && #[trigger] observed_in(bs2[i], k, c);
            assert(all[bs1.len() + i] == bs2[i]);
        }
        if observed_any(all, k, c) {
            let i = choose|i: int| 0 <= i < all.len() && #[trigger] observed_in(all[i], k, c);
            if i < bs1.len() {
                assert(all[i] == bs1[i]);
            } else {
                assert(all[i] == bs2[i - bs1.len()]);
            }
        }
    }
    lemma_map_of_ext(merged_rel(merged(m, bs1), bs2), merged_rel(m, all));
}

/// The summary does not depend on the order in which batches arrive: any
/// rearrangement of the same batches gives the same summary.
pub proof fn lemma_order_invariance(bs1: Seq<Seq<Slot>>, bs2: Seq<Seq<Slot>>)
    requires
        bs1.to_multiset() == bs2.to_multiset(),
    ensures
        summary_of(bs1) == summary_of(bs2),
{
    bs1.to_multiset_ensures();
    bs2.to_multiset_ensures();
    assert forall|k: Seq<char>, c: Category|
        #[trigger] observed_any(bs1, k, c) == observed_any(bs2, k, c) by {
        if observed_any(bs1, k, c) {
            let i = choose|i: int| 0 <= i < bs1.len() && #[trigger] observed_in(bs1[i], k, c);
            assert(bs1.contains(bs1[i]));
            assert(bs1.to_multiset().count(bs1[i]) > 0);
            assert(bs2.to_multiset().count(bs1[i]) > 0);
            assert(bs2.contains(bs1[i]));
            let j = choose|j: int| 0 <= j < bs2.len() && bs2[j] == bs1[i];
            assert(observed_in(bs2[j], k, c));
        }
        if observed_any(bs2, k, c) {
            let i = choose|i: int| 0 <= i < bs2.len() && #[trigger] observed_in(bs2[i], k, c);
            assert(bs2.contains(bs2[i]));
            assert(bs2.to_multiset().count(bs2[i]) > 0);
            assert(bs1.to_multiset().count(bs2[i]) > 0);
            assert(bs1.contains(bs2[i]));
            let j = choose|j: int| 0 <= j < bs1.len() && bs1[j] == bs2[i];
            assert(observed_in(bs1[j], k, c));
        }
    }
    lemma_map_of_ext(
        merged_rel(Map::empty(), bs1),
        merged_rel(Map::empty(), bs2),
    );
}

/// Classifying the lines of two runs gives the batches of the first run
/// followed by those of the second.
pub proof fn lemma_batches_concat(a: Seq<Seq<char>>, b: Seq<Seq<char>>, keys: Seq<Seq<char>>)
    ensures
        batches_of(a + b, keys) == batches_of(a, keys) + batches_of(b, keys),
{
    assert(batches_of(a + b, keys) =~= batches_of(a, keys) + batches_of(b, keys));
}

/// The names in the summary of a stream are exactly the requested names
/// that some line gives a category other than `Absent`, so there are as
/// many of them as such names and never more.
pub proof fn lemma_summary_names(lines: Seq<Seq<char>>, keys: Seq<Seq<char>>)
    ensures
        summary_of(batches_of(lines, keys)).dom() == present_names(lines, keys),
        summary_of(batches_of(lines, keys)).dom().len() == present_names(lines, keys).len(),
{
    let bs = batches_of(lines, keys);
    let s = summary_of(bs);
    assert forall|k: Seq<char>| #[trigger] s.dom().contains(k) == present_names(lines, keys).contains(k) by {
        if s.dom().contains(k) {
            let c = choose|c: Category| #[trigger] merged_rel(Map::empty(), bs)(k, c);
            assert(!holds(Map::empty(), k, c));
            let i = choose|i: int| 0 <= i < bs.len() && #[trigger] observed_in(bs[i], k, c);
            let b = bs[i];
            let j = choose|j: int| 0 <= j < b.len() && b[j] == Some((k, c));
            let doc = parsed(lines[i])->0;
            assert(b[j] == slot_of(keys[j], category_of(member_of(doc, keys[j]))));
            assert(keys.contains(k));
            assert(present(lines[i], k));
        }
        if present_names(lines, keys).contains(k) {
            let i = choose|i: int| 0 <= i < lines.len() && #[trigger] present(lines[i], k);
            assert(keys.contains(k));
            let j = choose|j: int| 0 <= j < keys.len() && keys[j] == k;
            let doc = parsed(lines[i])->0;
            let c = category_of(member_of(doc, k));
            let b = bs[i];
            assert(b == batch_of(lines[i], keys));
            assert(b[j] == Some((k, c)));
            assert(observed_in(bs[i], k, c));
            assert(merged_rel(Map::empty(), bs)(k, c));
        }
    }
    assert(s.dom() =~= present_names(lines, keys));
}

} // verus!
