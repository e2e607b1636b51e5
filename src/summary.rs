//! The summary: for each field name, the set of categories observed for it,
//! and the merge of classification batches into it.

use vstd::prelude::*;
use crate::category::Category;
use crate::classify::{batch_view, strings_view, FieldResult, Slot};

verus! {

/// The map whose keys are the names related to some category by `rel`, and
/// whose value at a name is the set of categories related to it.
pub open spec fn map_of(rel: spec_fn(Seq<char>, Category) -> bool) -> Map<Seq<char>, Set<Category>> {
    Map::new(|k: Seq<char>| exists|c: Category| #[trigger] rel(k, c), |k: Seq<char>| Set::new(|c: Category| rel(k, c)))
}

/// Whether `m` records category `c` for the name `k`.
pub open spec fn holds(m: Map<Seq<char>, Set<Category>>, k: Seq<char>, c: Category) -> bool {
    m.contains_key(k) && m[k].contains(c)
}

/// Whether the batch `b` reports category `c` for the name `k`; an absent
/// category is never reported.
pub open spec fn observed_in(b: Seq<Slot>, k: Seq<char>, c: Category) -> bool {
    c != Category::Absent && exists|j: int| 0 <= j < b.len() && b[j] == Some((k, c))
}

/// `m` with the category `c` added for the name `k`.
pub open spec fn with_pair(m: Map<Seq<char>, Set<Category>>, k: Seq<char>, c: Category) -> Map<
    Seq<char>,
    Set<Category>,
> {
    map_of(pair_rel(m, k, c))
}

pub open spec fn pair_rel(m: Map<Seq<char>, Set<Category>>, k: Seq<char>, c: Category) -> spec_fn(
    Seq<char>,
    Category,
) -> bool {
    |k2: Seq<char>, c2: Category| holds(m, k2, c2) || (k2 == k && c2 == c)
}

/// `m` with everything that the batches `bs` report merged in.
pub open spec fn merged(m: Map<Seq<char>, Set<Category>>, bs: Seq<Seq<Slot>>) -> Map<
    Seq<char>,
    Set<Category>,
> {
    map_of(merged_rel(m, bs))
}

/// Whether some batch of `bs` reports category `c` for the name `k`.
pub open spec fn observed_any(bs: Seq<Seq<Slot>>, k: Seq<char>, c: Category) -> bool {
    exists|i: int| 0 <= i < bs.len() && #[trigger] observed_in(bs[i], k, c)
}

pub open spec fn merged_rel(m: Map<Seq<char>, Set<Category>>, bs: Seq<Seq<Slot>>) -> spec_fn(
    Seq<char>,
    Category,
) -> bool {
    |k: Seq<char>, c: Category| holds(m, k, c) || observed_any(bs, k, c)
}

/// `m` with what the batch `b` reports merged in.
pub open spec fn with_batch(m: Map<Seq<char>, Set<Category>>, b: Seq<Slot>) -> Map<
    Seq<char>,
    Set<Category>,
> {
    map_of(batch_rel(m, b))
}

pub open spec fn batch_rel(m: Map<Seq<char>, Set<Category>>, b: Seq<Slot>) -> spec_fn(
    Seq<char>,
    Category,
) -> bool {
    |k: Seq<char>, c: Category| holds(m, k, c) || observed_in(b, k, c)
}

/// The summary of a whole stream of batches.
pub open spec fn summary_of(bs: Seq<Seq<Slot>>) -> Map<Seq<char>, Set<Category>> {
    merged(Map::empty(), bs)
}

pub open spec fn batches_view(bs: Seq<Vec<Option<FieldResult>>>) -> Seq<Seq<Slot>> {
    bs.map_values(|b: Vec<Option<FieldResult>>| batch_view(b@))
}

/// A map that records no name with an empty set of categories.
pub open spec fn no_empty_sets(m: Map<Seq<char>, Set<Category>>) -> bool {
    forall|k: Seq<char>| #[trigger] m.contains_key(k) ==> exists|c: Category| m[k].contains(c)
}

pub proof fn lemma_map_of_ext(
    r1: spec_fn(Seq<char>, Category) -> bool,
    r2: spec_fn(Seq<char>, Category) -> bool,
)
    requires
        forall|k: Seq<char>, c: Category| #[trigger] r1(k, c) == r2(k, c),
    ensures
        map_of(r1) == map_of(r2),
{
    assert(r1 == r2);
}

pub proof fn lemma_map_of_holds(rel: spec_fn(Seq<char>, Category) -> bool)
    ensures
        forall|k: Seq<char>, c: Category| #[trigger] holds(map_of(rel), k, c) == rel(k, c),
        no_empty_sets(map_of(rel)),
{
    let m = map_of(rel);
    assert forall|k: Seq<char>| #[trigger] m.contains_key(k) implies exists|c: Category|
        m[k].contains(c) by {
        let c = choose|c: Category| #[trigger] rel(k, c);
        assert(m[k].contains(c));
    }
}

/// A map with no empty sets is the map of its own relation.
pub proof fn lemma_map_of_self(m: Map<Seq<char>, Set<Category>>)
    requires
        no_empty_sets(m),
    ensures
        map_of(|k: Seq<char>, c: Category| holds(m, k, c)) == m,
{
    let rel = |k: Seq<char>, c: Category| holds(m, k, c);
    let m2 = map_of(rel);
    assert forall|k: Seq<char>| #[trigger] m2.contains_key(k) == m.contains_key(k) by {
        if m.contains_key(k) {
            let c = choose|c: Category| m[k].contains(c);
            assert(rel(k, c));
        }
    }
    assert forall|k: Seq<char>| m2.contains_key(k) implies #[trigger] m2[k] == m[k] by {
        assert(m2[k] =~= m[k]);
    }
    assert(m2 =~= m);
}

/// The category a slot holds; an empty slot counts as absent.
pub open spec fn slot_category(s: Slot) -> Category {
    match s {
        Some((_, c)) => c,
        None => Category::Absent,
    }
}

/// The field name a slot holds; empty for an empty slot.
pub open spec fn slot_key(s: Slot) -> Seq<char> {
    match s {
        Some((k, _)) => k,
        None => Seq::empty(),
    }
}

proof fn lemma_observed_step(b: Seq<Slot>, i: int, k: Seq<char>, c: Category)
    requires
        0 <= i < b.len(),
    ensures
        observed_in(b.subrange(0, i + 1), k, c) == (observed_in(b.subrange(0, i), k, c) || (c
            != Category::Absent && b[i] == Some((k, c)))),
{
    if observed_in(b.subrange(0, i), k, c) {
        let j = choose|j: int| 0 <= j < i && #[trigger] b.subrange(0, i)[j] == Some((k, c));
        assert(b.subrange(0, i + 1)[j] == Some((k, c)));
    }
    if c != Category::Absent && b[i] == Some((k, c)) {
        assert(b.subrange(0, i + 1)[i] == Some((k, c)));
    }
    if observed_in(b.subrange(0, i + 1), k, c) {
        let j = choose|j: int| 0 <= j < i + 1 && #[trigger] b.subrange(0, i + 1)[j] == Some((k, c));
        if j < i {
            assert(b.subrange(0, i)[j] == Some((k, c)));
        }
    }
}

/// Adding the next slot of a batch is adding its pair, if it has one.
proof fn lemma_batch_step(m: Map<Seq<char>, Set<Category>>, b: Seq<Slot>, i: int)
    requires
        0 <= i < b.len(),
    ensures
        slot_category(b[i]) != Category::Absent ==> with_batch(m, b.subrange(0, i + 1))
            == with_pair(with_batch(m, b.subrange(0, i)), slot_key(b[i]), slot_category(b[i])),
        slot_category(b[i]) == Category::Absent ==> with_batch(m, b.subrange(0, i + 1))
            == with_batch(m, b.subrange(0, i)),
{
    let prev = with_batch(m, b.subrange(0, i));
    lemma_map_of_holds(batch_rel(m, b.subrange(0, i)));
    assert forall|k: Seq<char>, c: Category|
        #[trigger] observed_in(b.subrange(0, i + 1), k, c) == (observed_in(b.subrange(0, i), k, c)
            || (c != Category::Absent && b[i] == Some((k, c)))) by {
        lemma_observed_step(b, i, k, c);
    }
    if slot_category(b[i]) != Category::Absent {
        lemma_map_of_ext(
            batch_rel(m, b.subrange(0, i + 1)),
            pair_rel(prev, slot_key(b[i]), slot_category(b[i])),
        );
    } else {
        lemma_map_of_ext(batch_rel(m, b.subrange(0, i + 1)), batch_rel(m, b.subrange(0, i)));
    }
}

/// Merging a batch into `merged(m, bs)` is merging `bs` extended by it.
proof fn lemma_merged_step(m: Map<Seq<char>, Set<Category>>, bs: Seq<Seq<Slot>>, b: Seq<Slot>)
    ensures
        with_batch(merged(m, bs), b) == merged(m, bs.push(b)),
{
    lemma_map_of_holds(merged_rel(m, bs));
    let bs2 = bs.push(b);
    assert forall|k: Seq<char>, c: Category|
        #[trigger] observed_any(bs2, k, c) == (observed_any(bs, k, c) || observed_in(b, k, c)) by {
        if observed_any(bs, k, c) {
            let i = choose|i: int| 0 <= i < bs.len() && #[trigger] observed_in(bs[i], k, c);
            assert(bs2[i] == bs[i]);
        }
        if observed_in(b, k, c) {
            assert(bs2[bs.len() as int] == b);
        }
        if observed_any(bs2, k, c) {
            let i = choose|i: int| 0 <= i < bs2.len() && #[trigger] observed_in(bs2[i], k, c);
            if i < bs.len() {
                assert(bs2[i] == bs[i]);
            }
        }
    }
    lemma_map_of_ext(batch_rel(merged(m, bs), b), merged_rel(m, bs2));
}

/// Merging nothing leaves a map without empty sets as it is.
proof fn lemma_merged_nothing(m: Map<Seq<char>, Set<Category>>)
    requires
        no_empty_sets(m),
    ensures
        merged(m, Seq::empty()) == m,
        with_batch(m, Seq::empty()) == m,
{
    lemma_map_of_self(m);
    lemma_map_of_ext(merged_rel(m, Seq::empty()), |k: Seq<char>, c: Category| holds(m, k, c));
    lemma_map_of_ext(batch_rel(m, Seq::empty()), |k: Seq<char>, c: Category| holds(m, k, c));
}

/// The categories seen for one field, one flag per category that can be
/// recorded.
#[derive(Clone, Copy, Debug)]
pub struct CategorySet {
    pub string: bool,
    pub number: bool,
    pub numeric_string: bool,
    pub array: bool,
    pub boolean: bool,
    pub object: bool,
}

impl CategorySet {
    pub open spec fn has(&self, c: Category) -> bool {
        match c {
            Category::String => self.string,
            Category::Number => self.number,
            Category::NumericString => self.numeric_string,
            Category::Array => self.array,
            Category::Boolean => self.boolean,
            Category::Object => self.object,
            Category::Absent => false,
        }
    }

    /// Whether the set holds some category.
    pub open spec fn nonempty(&self) -> bool {
        self.string || self.number || self.numeric_string || self.array || self.boolean
            || self.object
    }

    fn single(c: Category) -> (r: CategorySet)
        requires
            c != Category::Absent,
        ensures
            forall|c2: Category| r.has(c2) == (c2 == c),
    {
        let mut r = CategorySet {
            string: false,
            number: false,
            numeric_string: false,
            array: false,
            boolean: false,
            object: false,
        };
        r.add(c);
        r
    }

    fn add(&mut self, c: Category)
        requires
            c != Category::Absent,
        ensures
            forall|c2: Category| final(self).has(c2) == (old(self).has(c2) || c2 == c),
    {
        match c {
            Category::String => self.string = true,
            Category::Number => self.number = true,
            Category::NumericString => self.numeric_string = true,
            Category::Array => self.array = true,
            Category::Boolean => self.boolean = true,
            Category::Object => self.object = true,
            Category::Absent => {},
        }
    }

    /// The categories in the set, each once, in declaration order.
    pub fn to_vec(&self) -> (r: Vec<Category>)
        ensures
            forall|c: Category| #[trigger] r@.contains(c) == self.has(c),
            r@.no_duplicates(),
    {
        let mut r: Vec<Category> = Vec::new();
        push_if(&mut r, self.string, Category::String);
        push_if(&mut r, self.number, Category::Number);
        push_if(&mut r, self.numeric_string, Category::NumericString);
        push_if(&mut r, self.array, Category::Array);
        push_if(&mut r, self.boolean, Category::Boolean);
        push_if(&mut r, self.object, Category::Object);
        r
    }
}

fn push_if(r: &mut Vec<Category>, flag: bool, c: Category)
    requires
        old(r)@.no_duplicates(),
        !old(r)@.contains(c),
    ensures
        final(r)@.no_duplicates(),
        forall|x: Category| #[trigger]
            final(r)@.contains(x) == (old(r)@.contains(x) || (flag && x == c)),
{
    if flag {
        r.push(c);
        proof {
            assert forall|x: Category| #[trigger]
                r@.contains(x) == (old(r)@.contains(x) || x == c) by {
                if x == c {
                    assert(r@[old(r)@.len() as int] == c);
                }
                if old(r)@.contains(x) {
                    let j = choose|j: int| 0 <= j < old(r)@.len() && old(r)@[j] == x;
                    assert(r@[j] == x);
                }
            }
        }
    }
}

struct FieldEntry {
    name: String,
    seen: CategorySet,
}

/// For each field name, the set of categories observed for it.
pub struct Summary {
    entries: Vec<FieldEntry>,
}

impl Summary {
    /// The relation between names and categories that the entries record.
    pub closed spec fn rel(&self) -> spec_fn(Seq<char>, Category) -> bool {
        |k: Seq<char>, c: Category|
            exists|i: int|
                0 <= i < self.entries@.len() && self.entries@[i].name@ == k
                    && self.entries@[i].seen.has(c)
    }

    /// Well-formed: one entry per name, and every entry holds a category.
    pub closed spec fn wf(&self) -> bool {
        &&& forall|i: int, j: int|
            0 <= i < self.entries@.len() && 0 <= j < self.entries@.len() && i != j
                ==> self.entries@[i].name@ != self.entries@[j].name@
        &&& forall|i: int| 0 <= i < self.entries@.len() ==> (#[trigger] self.entries@[i]).seen.nonempty()
    }

    pub closed spec fn view(&self) -> Map<Seq<char>, Set<Category>> {
        map_of(self.rel())
    }

    fn find(&self, key: &String) -> (r: Option<usize>)
        ensures
            r matches Some(i) ==> i < self.entries@.len() && self.entries@[i as int].name@ == key@,
            r is None ==> forall|t: int|
                0 <= t < self.entries@.len() ==> self.entries@[t].name@ != key@,
    {
        let mut i: usize = 0;
        while i < self.entries.len()
            invariant
                0 <= i <= self.entries@.len(),
                forall|t: int| 0 <= t < i ==> self.entries@[t].name@ != key@,
            decreases self.entries@.len() - i,
        {
            if self.entries[i].name == *key {
                return Some(i);
            }
            i = i + 1;
        }
        None
    }

    /// An empty summary.
    pub fn new() -> (r: Summary)
        ensures
            r.wf(),
            r@ == Map::<Seq<char>, Set<Category>>::empty(),
    {
        let r = Summary { entries: Vec::new() };
        assert(r@ =~= Map::<Seq<char>, Set<Category>>::empty());
        r
    }

    pub proof fn lemma_view(&self)
        ensures
            no_empty_sets(self@),
    {
        lemma_map_of_holds(self.rel());
    }

    /// Merges one classification batch: every slot that holds a category
    /// other than `Absent` adds that category to its field.
    pub fn merge_batch(&mut self, batch: &Vec<Option<FieldResult>>)
        requires
            old(self).wf(),
        ensures
            final(self).wf(),
            final(self)@ == with_batch(old(self)@, batch_view(batch@)),
    {
        let ghost m0 = self@;
        let ghost b = batch_view(batch@);
        proof {
            self.lemma_view();
            lemma_merged_nothing(m0);
            assert(b.subrange(0, 0) =~= Seq::<Slot>::empty());
        }
        let mut i: usize = 0;
        while i < batch.len()
            invariant
                0 <= i <= batch@.len(),
                b == batch_view(batch@),
                self.wf(),
                self@ == with_batch(m0, b.subrange(0, i as int)),
            decreases batch@.len() - i,
        {
            proof {
                lemma_batch_step(m0, b, i as int);
            }
            match &batch[i] {
                Some(f) => {
                    if f.category != Category::Absent {
                        self.insert(&f.key, f.category);
                    }
                },
                None => {},
            }
            i = i + 1;
        }
        proof {
            assert(b.subrange(0, batch@.len() as int) =~= b);
        }
    }

    /// Merges a sequence of batches, in order.
    pub fn merge_all(&mut self, batches: &Vec<Vec<Option<FieldResult>>>)
        requires
            old(self).wf(),
        ensures
            final(self).wf(),
            final(self)@ == merged(old(self)@, batches_view(batches@)),
    {
        let ghost m0 = self@;
        let ghost bs = batches_view(batches@);
        proof {
            self.lemma_view();
            lemma_merged_nothing(m0);
            assert(bs.subrange(0, 0) =~= Seq::<Seq<Slot>>::empty());
        }
        let mut i: usize = 0;
        while i < batches.len()
            invariant
                0 <= i <= batches@.len(),
                bs == batches_view(batches@),
                self.wf(),
                self@ == merged(m0, bs.subrange(0, i as int)),
            decreases batches@.len() - i,
        {
            self.merge_batch(&batches[i]);
            proof {
                lemma_merged_step(m0, bs.subrange(0, i as int), bs[i as int]);
                assert(bs.subrange(0, i as int).push(bs[i as int]) =~= bs.subrange(0, i + 1));
            }
            i = i + 1;
        }
        proof {
            assert(bs.subrange(0, batches@.len() as int) =~= bs);
        }
    }

    /// The summary of a whole sequence of batches.
    pub fn aggregate(batches: &Vec<Vec<Option<FieldResult>>>) -> (r: Summary)
        ensures
            r.wf(),
            r@ == summary_of(batches_view(batches@)),
    {
        let mut r = Summary::new();
        r.merge_all(batches);
        r
    }

    /// The categories recorded for the field `key`, each once, or `None`
    /// where the summary has no entry for it.
    pub fn get(&self, key: &String) -> (r: Option<Vec<Category>>)
        requires
            self.wf(),
        ensures
            r is None <==> !self@.contains_key(key@),
            r matches Some(v) ==> v@.no_duplicates() && forall|c: Category|
                #[trigger] v@.contains(c) == self@[key@].contains(c),
    {
        proof {
            self.lemma_view();
        }
        match self.find(key) {
            Some(i) => {
                let v = self.entries[i].seen.to_vec();
                proof {
                    let e = self.entries@[i as int];
                    assert forall|c: Category| #[trigger] self.rel()(key@, c) == e.seen.has(c) by {
                        if self.rel()(key@, c) {
                            let t = choose|t: int|
                                0 <= t < self.entries@.len() && self.entries@[t].name@ == key@
                                    && self.entries@[t].seen.has(c);
                            assert(t == i);
                        }
                    }
                    let k = key@;
                    assert(e.seen.nonempty());
                    if e.seen.string { assert(self.rel()(k, Category::String)); }
                    else if e.seen.number { assert(self.rel()(k, Category::Number)); }
                    else if e.seen.numeric_string { assert(self.rel()(k, Category::NumericString)); }
                    else if e.seen.array { assert(self.rel()(k, Category::Array)); }
                    else if e.seen.boolean { assert(self.rel()(k, Category::Boolean)); }
                    else { assert(self.rel()(k, Category::Object)); }
                    assert(self@.contains_key(k));
                    assert forall|c: Category| #[trigger] v@.contains(c) == self@[k].contains(c) by {
                        assert(self@[k].contains(c) == self.rel()(k, c));
                    }
                }
                Some(v)
            },
            None => {
                assert(!self@.contains_key(key@)) by {
                    assert forall|c: Category| !#[trigger] self.rel()(key@, c) by {}
                }
                None
            },
        }
    }

    /// The field names the summary holds, each once.
    pub fn names(&self) -> (r: Vec<String>)
        requires
            self.wf(),
        ensures
            strings_view(r@).no_duplicates(),
            forall|k: Seq<char>| #[trigger] strings_view(r@).contains(k) == self@.contains_key(k),
    {
        let mut r: Vec<String> = Vec::new();
        let mut i: usize = 0;
        while i < self.entries.len()
            invariant
                self.wf(),
                0 <= i <= self.entries@.len(),
                r@.len() == i,
                forall|j: int| 0 <= j < i ==> #[trigger] r@[j]@ == self.entries@[j].name@,
            decreases self.entries@.len() - i,
        {
            r.push(self.entries[i].name.clone());
            i = i + 1;
        }
        proof {
            let rv = strings_view(r@);
            assert forall|k: Seq<char>| #[trigger] rv.contains(k) == self@.contains_key(k) by {
                if rv.contains(k) {
                    let j = choose|j: int| 0 <= j < rv.len() && rv[j] == k;
                    let e = self.entries@[j];
                    assert(e.seen.nonempty());
                    if e.seen.string { assert(self.rel()(k, Category::String)); }
                    else if e.seen.number { assert(self.rel()(k, Category::Number)); }
                    else if e.seen.numeric_string { assert(self.rel()(k, Category::NumericString)); }
                    else if e.seen.array { assert(self.rel()(k, Category::Array)); }
                    else if e.seen.boolean { assert(self.rel()(k, Category::Boolean)); }
                    else { assert(self.rel()(k, Category::Object)); }
                }
                if self@.contains_key(k) {
                    let c = choose|c: Category| #[trigger] self.rel()(k, c);
                    let t = choose|t: int|
                        0 <= t < self.entries@.len() && self.entries@[t].name@ == k
                            && self.entries@[t].seen.has(c);
                    assert(rv[t] == k);
                }
            }
        }
        r
    }

    /// Records category `c` for the field `key`.
    pub fn insert(&mut self, key: &String, c: Category)
        requires
            old(self).wf(),
            c != Category::Absent,
        ensures
            final(self).wf(),
            final(self)@ == with_pair(old(self)@, key@, c),
    {
        let ghost m0 = self@;
        let ghost r0 = self.rel();
        let found = self.find(key);
        match found {
            Some(i) => {
                let mut seen = self.entries[i].seen;
                seen.add(c);
                let name = self.entries[i].name.clone();
                self.entries.set(i, FieldEntry { name, seen });
            },
            None => {
                self.entries.push(FieldEntry { name: key.clone(), seen: CategorySet::single(c) });
            },
        }
        proof {
            lemma_map_of_holds(r0);
            let r1 = pair_rel(m0, key@, c);
            let olds = old(self).entries@;
            let news = self.entries@;
            assert forall|k2: Seq<char>, c2: Category| #[trigger] self.rel()(k2, c2) == r1(k2, c2) by {
                if r0(k2, c2) {
                    let t = choose|t: int|
                        0 <= t < olds.len() && olds[t].name@ == k2 && olds[t].seen.has(c2);
                    assert(news[t].name@ == k2 && news[t].seen.has(c2));
                }
                if k2 == key@ && c2 == c {
                    match found {
                        Some(i) => assert(news[i as int].name@ == k2 && news[i as int].seen.has(c2)),
                        None => assert(news[olds.len() as int].name@ == k2 && news[olds.len() as int].seen.has(c2)),
                    }
                }
                if self.rel()(k2, c2) && !(k2 == key@ && c2 == c) {
                    let t = choose|t: int|
                        0 <= t < news.len() && news[t].name@ == k2 && news[t].seen.has(c2);
                    assert(olds[t].name@ == k2 && olds[t].seen.has(c2));
                    assert(r0(k2, c2));
                }
            }
            lemma_map_of_ext(self.rel(), r1);
            assert(self@ == with_pair(m0, key@, c));
            assert forall|j: int| 0 <= j < news.len() implies (#[trigger] news[j]).seen.nonempty() by {
                if j < olds.len() {
                    assert(olds[j].seen.nonempty());
                }
                assert(news[j].seen.has(c) || news[j] == olds[j]);
            }
            assert forall|a: int, b: int|
                0 <= a < news.len() && 0 <= b < news.len() && a != b
                    implies news[a].name@ != news[b].name@ by {
                if a < olds.len() && b < olds.len() {
                    assert(olds[a].name@ == news[a].name@);
                    assert(olds[b].name@ == news[b].name@);
                }
            }
        }
    }
}

} // verus!
