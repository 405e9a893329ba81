//! Bags: multisets of templates that dispense one copy at a time.
use vstd::prelude::*;
use vstd::multiset::Multiset;
use crate::template::{valid_cells, Template, TemplateModel};

verus! {

broadcast use vstd::multiset::group_multiset_axioms;

/// What a bag is: its entries in order, each a number of copies and a template.
pub type BagModel = Seq<(int, TemplateModel)>;

/// The bag left after taking one copy of entry `i`, which holds at least
/// one: the count drops by one, and an entry whose last copy is taken is
/// replaced by the final entry.
pub open spec fn select(b: BagModel, i: int) -> BagModel {
    if b[i].0 > 1 {
        b.update(i, (b[i].0 - 1, b[i].1))
    } else {
        b.update(i, b.last()).drop_last()
    }
}

/// `n` copies of `t`.
pub open spec fn copies(t: TemplateModel, n: int) -> Multiset<TemplateModel>
    decreases n,
{
    if n <= 0 {
        Multiset::empty()
    } else {
        copies(t, n - 1).insert(t)
    }
}

/// The templates of a bag, each with its multiplicity.
pub open spec fn bag_multiset(b: BagModel) -> Multiset<TemplateModel>
    decreases b.len(),
{
    if b.len() == 0 {
        Multiset::empty()
    } else {
        bag_multiset(b.drop_last()).add(copies(b.last().1, b.last().0))
    }
}

/// How many copies a bag holds.
pub open spec fn bag_size(b: BagModel) -> int
    decreases b.len(),
{
    if b.len() == 0 {
        0
    } else {
        bag_size(b.drop_last()) + b.last().0
    }
}

/// The weight of one entry: one, and one for each copy.
pub open spec fn entry_weight(e: (int, TemplateModel)) -> int {
    if e.0 > 0 {
        e.0 + 1
    } else {
        1
    }
}

/// A measure that every selection decreases: the weights of all entries.
pub open spec fn bag_weight(b: BagModel) -> int
    decreases b.len(),
{
    if b.len() == 0 {
        0
    } else {
        bag_weight(b.drop_last()) + entry_weight(b.last())
    }
}

/// Every template of the bag has at least one cell and small coordinates.
pub open spec fn valid_bag(bag: BagModel) -> bool {
    forall|i: int| 0 <= i < bag.len() ==> valid_cells(#[trigger] bag[i].1.0)
}

/// The bag holds no copy of any template.
pub open spec fn no_copies(b: BagModel) -> bool {
    forall|i: int| 0 <= i < b.len() ==> #[trigger] b[i].0 <= 0
}

/// The first entry at or after `i` that holds a copy, or the length of the
/// bag when there is none.
pub open spec fn next_stocked(b: BagModel, i: int) -> int
    decreases b.len() - i,
{
    if i < 0 || i >= b.len() {
        b.len() as int
    } else if b[i].0 > 0 {
        i
    } else {
        next_stocked(b, i + 1)
    }
}

/// `next_stocked` finds an entry holding a copy, and skips only empty entries.
pub proof fn lemma_next_stocked(b: BagModel, i: int)
    requires
        0 <= i <= b.len(),
    ensures
        i <= next_stocked(b, i) <= b.len(),
        next_stocked(b, i) < b.len() ==> b[next_stocked(b, i)].0 > 0,
        forall|m: int| i <= m < next_stocked(b, i) ==> #[trigger] b[m].0 <= 0,
    decreases b.len() - i,
{
    if i < b.len() && b[i].0 <= 0 {
        lemma_next_stocked(b, i + 1);
    }
}

/// A bag with no copies is an empty multiset.
pub proof fn lemma_no_copies_empty(b: BagModel)
    requires
        no_copies(b),
    ensures
        bag_multiset(b) =~= Multiset::empty(),
    decreases b.len(),
{
    if b.len() > 0 {
        lemma_no_copies_empty(b.drop_last());
        assert(b[b.len() - 1].0 <= 0);
    }
}

/// Every entry of the bag holds at least one copy.
pub open spec fn counts_positive(b: BagModel) -> bool {
    forall|i: int| 0 <= i < b.len() ==> #[trigger] b[i].0 >= 1
}

proof fn lemma_copies_len(t: TemplateModel, n: int)
    requires
        n >= 0,
    ensures
        copies(t, n).len() == n,
    decreases n,
{
    if n > 0 {
        lemma_copies_len(t, n - 1);
    }
}

pub proof fn lemma_weight_nonnegative(b: BagModel)
    ensures
        bag_weight(b) >= b.len(),
    decreases b.len(),
{
    if b.len() > 0 {
        lemma_weight_nonnegative(b.drop_last());
    }
}

/// Replacing entry `i` changes each total by what the entry held.
proof fn lemma_update(b: BagModel, i: int, e: (int, TemplateModel))
    requires
        0 <= i < b.len(),
    ensures
        bag_weight(b.update(i, e)) == bag_weight(b) - entry_weight(b[i]) + entry_weight(e),
        bag_size(b.update(i, e)) == bag_size(b) - b[i].0 + e.0,
        bag_multiset(b.update(i, e)).add(copies(b[i].1, b[i].0)) == bag_multiset(b).add(
            copies(e.1, e.0),
        ),
    decreases b.len(),
{
    let u = b.update(i, e);
    let old_copies = copies(b[i].1, b[i].0);
    let new_copies = copies(e.1, e.0);
    if i == b.len() - 1 {
        assert(u.drop_last() =~= b.drop_last());
        assert(u.last() == e);
        assert(bag_multiset(u) == bag_multiset(b.drop_last()).add(new_copies));
        assert(bag_multiset(b) == bag_multiset(b.drop_last()).add(old_copies));
        assert(bag_multiset(u).add(old_copies) =~= bag_multiset(b).add(new_copies));
    } else {
        lemma_update(b.drop_last(), i, e);
        assert(u.drop_last() =~= b.drop_last().update(i, e));
        assert(b.drop_last()[i] == b[i]);
        assert(u.last() == b.last());
        let last_copies = copies(b.last().1, b.last().0);
        assert(bag_multiset(u) == bag_multiset(u.drop_last()).add(last_copies));
        assert(bag_multiset(b) == bag_multiset(b.drop_last()).add(last_copies));
        let lhs = bag_multiset(u.drop_last()).add(old_copies);
        let rhs = bag_multiset(b.drop_last()).add(new_copies);
        assert(lhs == rhs);
        assert forall|x: TemplateModel| #[trigger] bag_multiset(u).add(old_copies).count(x)
            == bag_multiset(b).add(new_copies).count(x) by {
            assert(lhs.count(x) == rhs.count(x));
        }
        assert(bag_multiset(u).add(old_copies) =~= bag_multiset(b).add(new_copies));
    }
}

/// One less of `t` is `t` taken away.
proof fn lemma_copies_step(t: TemplateModel, n: int)
    requires
        n >= 1,
    ensures
        copies(t, n) == copies(t, n - 1).insert(t),
{
}

/// Taking one copy of an entry removes exactly that one copy from the bag.
pub proof fn lemma_select_multiset(b: BagModel, i: int)
    requires
        0 <= i < b.len(),
        b[i].0 >= 1,
    ensures
        bag_multiset(select(b, i)) == bag_multiset(b).remove(b[i].1),
        bag_multiset(b).count(b[i].1) >= 1,
        bag_size(select(b, i)) == bag_size(b) - 1,
        counts_positive(b) ==> counts_positive(select(b, i)),
{
    let t = b[i].1;
    let n = b[i].0;
    lemma_copies_step(t, n);
    if n > 1 {
        let e = (n - 1, t);
        lemma_update(b, i, e);
        let c1 = copies(t, n);
        let c0 = copies(t, n - 1);
        let m = bag_multiset(select(b, i));
        assert(m.add(c1) == bag_multiset(b).add(c0));
        assert forall|x: TemplateModel| #[trigger] m.insert(t).count(x) == bag_multiset(b).count(x) by {
            assert(m.add(c1).count(x) == bag_multiset(b).add(c0).count(x));
            assert(c1.count(x) == c0.insert(t).count(x));
        }
        assert(m.insert(t) =~= bag_multiset(b));
        assert(bag_multiset(select(b, i)) =~= bag_multiset(b).remove(t));
    } else {
        let e = b.last();
        lemma_update(b, i, e);
        let u = b.update(i, e);
        assert(u.drop_last() == select(b, i));
        assert(u.last() == e);
        let m = bag_multiset(select(b, i));
        let ce = copies(e.1, e.0);
        assert(n == 1);
        assert(copies(t, n) == copies(t, 0).insert(t));
        assert(bag_multiset(u) == m.add(ce));
        assert(bag_multiset(u).add(copies(t, n)) == bag_multiset(b).add(ce));
        assert forall|x: TemplateModel| #[trigger] m.insert(t).count(x) == bag_multiset(b).count(x) by {
            assert(bag_multiset(u).add(copies(t, n)).count(x) == bag_multiset(b).add(ce).count(x));
        }
        assert(m.insert(t) =~= bag_multiset(b));
        assert(bag_multiset(select(b, i)) =~= bag_multiset(b).remove(t));
    }
    assert(bag_multiset(b).count(t) >= 1);
}

/// A bag holds as many copies as its counts say.
pub proof fn lemma_bag_multiset_len(b: BagModel)
    requires
        forall|i: int| 0 <= i < b.len() ==> #[trigger] b[i].0 >= 0,
    ensures
        bag_multiset(b).len() == bag_size(b),
    decreases b.len(),
{
    if b.len() > 0 {
        assert(b[b.len() - 1].0 >= 0);
        lemma_bag_multiset_len(b.drop_last());
        lemma_copies_len(b.last().1, b.last().0);
    }
}

/// A bag that lists each copy as an entry of its own holds as many copies as
/// entries, so iterating it yields one pair per copy.
pub proof fn lemma_single_copies_size(b: BagModel)
    requires
        forall|i: int| 0 <= i < b.len() ==> #[trigger] b[i].0 == 1,
    ensures
        bag_size(b) == b.len(),
    decreases b.len(),
{
    if b.len() > 0 {
        lemma_single_copies_size(b.drop_last());
    }
}

/// How many copies of `t` the entries of `b` hold.
pub open spec fn count_in(b: BagModel, t: TemplateModel) -> int
    decreases b.len(),
{
    if b.len() == 0 {
        0
    } else {
        count_in(b.drop_last(), t) + if b.last().1 == t && b.last().0 > 0 {
            b.last().0
        } else {
            0
        }
    }
}

proof fn lemma_copies_count(t: TemplateModel, n: int, x: TemplateModel)
    ensures
        copies(t, n).count(x) == if x == t && n > 0 {
            n
        } else {
            0
        },
    decreases n,
{
    if n > 0 {
        lemma_copies_count(t, n - 1, x);
    }
}

/// The multiplicity of a template is what its entries hold together.
pub proof fn lemma_count_in(b: BagModel, t: TemplateModel)
    ensures
        bag_multiset(b).count(t) == count_in(b, t),
        count_in(b, t) > 0 ==> exists|i: int|
            0 <= i < b.len() && #[trigger] b[i].1 == t && b[i].0 > 0,
    decreases b.len(),
{
    if b.len() > 0 {
        lemma_count_in(b.drop_last(), t);
        lemma_copies_count(b.last().1, b.last().0, t);
        if count_in(b.drop_last(), t) > 0 {
            let i = choose|i: int|
                0 <= i < b.drop_last().len() && #[trigger] b.drop_last()[i].1 == t
                    && b.drop_last()[i].0 > 0;
            assert(b[i].1 == t);
        } else if count_in(b, t) > 0 {
            assert(b[b.len() - 1].1 == t);
        }
    }
}

/// How many copies of `t` the entries of `v` hold.
fn count_of(v: &Vec<(u8, Template)>, t: &Template) -> (r: u128)
    ensures
        r == count_in(entries_view(v@), t@),
{
    let mut sum: u128 = 0;
    let mut i: usize = 0;
    while i < v.len()
        invariant
            i <= v.len(),
            sum == count_in(entries_view(v@).subrange(0, i as int), t@),
            sum <= 255 * i,
        decreases v.len() - i,
    {
        let ghost prefix = entries_view(v@).subrange(0, i + 1);
        assert(prefix.drop_last() =~= entries_view(v@).subrange(0, i as int));
        assert(prefix.last() == (v@[i as int].0 as int, v@[i as int].1@));
        if v[i].1 == *t && v[i].0 > 0 {
            sum = sum + v[i].0 as u128;
        }
        i = i + 1;
    }
    assert(entries_view(v@).subrange(0, v@.len() as int) =~= entries_view(v@));
    sum
}

/// Iterating a bag that lists each copy as an entry of its own yields one
/// pair per copy, and each pair's rest of the bag holds one copy fewer.
pub proof fn lemma_bag_iteration(b: BagModel)
    requires
        forall|i: int| 0 <= i < b.len() ==> #[trigger] b[i].0 == 1,
    ensures
        b.len() == bag_size(b),
        forall|i: int|
            0 <= i < b.len() ==> #[trigger] bag_size(select(b, i)) == bag_size(b) - 1
                && bag_multiset(select(b, i)) == bag_multiset(b).remove(b[i].1),
{
    lemma_single_copies_size(b);
    assert forall|i: int| 0 <= i < b.len() implies #[trigger] bag_size(select(b, i)) == bag_size(b)
        - 1 && bag_multiset(select(b, i)) == bag_multiset(b).remove(b[i].1) by {
        lemma_select_multiset(b, i);
    }
}

/// Taking one copy of an entry lowers the bag's weight.
pub proof fn lemma_select_weight(b: BagModel, i: int)
    requires
        0 <= i < b.len(),
    ensures
        0 <= bag_weight(select(b, i)) < bag_weight(b),
{
    lemma_weight_nonnegative(select(b, i));
    let n = b[i].0;
    if n > 1 {
        lemma_update(b, i, (n - 1, b[i].1));
    } else {
        let e = b.last();
        lemma_update(b, i, e);
    }
}

/// A container for `Template`s. Iterating over a `Bag` gives, for each entry,
/// a `Template` and the rest of the `Bag` with one copy of it taken.
#[derive(Debug)]
pub struct Bag {
    collection: Vec<(u8, Template)>,
}

/// The model of a list of entries.
pub open spec fn entries_view(v: Seq<(u8, Template)>) -> BagModel {
    v.map_values(|e: (u8, Template)| (e.0 as int, e.1@))
}

/// A copy of a list of entries.
fn copy_entries(v: &Vec<(u8, Template)>) -> (r: Vec<(u8, Template)>)
    ensures
        entries_view(r@) == entries_view(v@),
{
    let mut r: Vec<(u8, Template)> = Vec::new();
    let mut i: usize = 0;
    while i < v.len()
        invariant
            i <= v.len(),
            entries_view(r@) == entries_view(v@).subrange(0, i as int),
        decreases v.len() - i,
    {
        let count = v[i].0;
        let template = v[i].1.clone();
        let ghost before = entries_view(r@);
        r.push((count, template));
        assert(entries_view(r@) =~= before.push((count as int, v@[i as int].1@)));
        assert(entries_view(r@) =~= entries_view(v@).subrange(0, i + 1));
        i = i + 1;
    }
    assert(entries_view(r@) =~= entries_view(v@));
    r
}

impl View for Bag {
    type V = BagModel;

    closed spec fn view(&self) -> BagModel {
        entries_view(self.collection@)
    }
}

impl Bag {
    /// Create a `Bag` from a collection of counted `Template`s.
    pub fn new(collection: Vec<(u8, Template)>) -> (r: Bag)
        ensures
            r@ == entries_view(collection@),
    {
        Bag { collection }
    }

    /// Iterate over the entries, each with the bag left after taking it.
    pub fn into_iter(self) -> (r: BagSelectionIterator)
        ensures
            r.entries() == self@,
            r.position() == 0,
    {
        BagSelectionIterator::new(self)
    }

    /// Whether every template has at least one cell and small coordinates,
    /// as the solver requires.
    pub fn is_valid(&self) -> (r: bool)
        ensures
            r == valid_bag(self@),
    {
        let mut i: usize = 0;
        while i < self.collection.len()
            invariant
                i <= self.collection.len(),
                forall|k: int| 0 <= k < i ==> valid_cells(#[trigger] self@[k].1.0),
            decreases self.collection.len() - i,
        {
            assert(self@[i as int].1 == self.collection@[i as int].1@);
            if !self.collection[i].1.is_valid() {
                return false;
            }
            i = i + 1;
        }
        true
    }

    /// Whether the bag holds no copy of any template.
    pub fn is_empty(&self) -> (r: bool)
        ensures
            r == no_copies(self@),
    {
        let mut i: usize = 0;
        while i < self.collection.len()
            invariant
                i <= self.collection.len(),
                forall|k: int| 0 <= k < i ==> #[trigger] self@[k].0 <= 0,
            decreases self.collection.len() - i,
        {
            assert(self@[i as int].0 == self.collection@[i as int].0);
            if self.collection[i].0 > 0 {
                return false;
            }
            i = i + 1;
        }
        true
    }

    /// The number of entries.
    pub fn len(&self) -> (r: usize)
        ensures
            r == self@.len(),
    {
        self.collection.len()
    }
}

impl PartialEq for Bag {
    /// Two bags are equal when they hold the same templates, each as often:
    /// the order of their entries, and how copies are split among them, does
    /// not matter.
    fn eq(&self, other: &Bag) -> (r: bool) {
        let mut i: usize = 0;
        while i < self.collection.len()
            invariant
                i <= self.collection.len(),
                forall|k: int|
                    0 <= k < i ==> count_in(self@, #[trigger] self@[k].1) == count_in(
                        other@,
                        self@[k].1,
                    ),
            decreases self.collection.len() - i,
        {
            let t = &self.collection[i].1;
            assert(self@[i as int].1 == t@);
            if count_of(&self.collection, t) != count_of(&other.collection, t) {
                proof {
                    lemma_count_in(self@, t@);
                    lemma_count_in(other@, t@);
                }
                return false;
            }
            i = i + 1;
        }
        let mut j: usize = 0;
        while j < other.collection.len()
            invariant
                j <= other.collection.len(),
                forall|k: int|
                    0 <= k < self@.len() ==> count_in(self@, #[trigger] self@[k].1) == count_in(
                        other@,
                        self@[k].1,
                    ),
                forall|k: int|
                    0 <= k < j ==> count_in(self@, #[trigger] other@[k].1) == count_in(
                        other@,
                        other@[k].1,
                    ),
            decreases other.collection.len() - j,
        {
            let t = &other.collection[j].1;
            assert(other@[j as int].1 == t@);
            if count_of(&self.collection, t) != count_of(&other.collection, t) {
                proof {
                    lemma_count_in(self@, t@);
                    lemma_count_in(other@, t@);
                }
                return false;
            }
            j = j + 1;
        }
        proof {
            assert forall|t: TemplateModel| #[trigger] bag_multiset(self@).count(t) == bag_multiset(
                other@,
            ).count(t) by {
                lemma_count_in(self@, t);
                lemma_count_in(other@, t);
                if count_in(self@, t) > 0 {
                    let k = choose|k: int|
                        0 <= k < self@.len() && #[trigger] self@[k].1 == t && self@[k].0 > 0;
                    assert(count_in(self@, self@[k].1) == count_in(other@, self@[k].1));
                } else if count_in(other@, t) > 0 {
                    let k = choose|k: int|
                        0 <= k < other@.len() && #[trigger] other@[k].1 == t && other@[k].0 > 0;
                    assert(count_in(self@, other@[k].1) == count_in(other@, other@[k].1));
                }
            }
            assert(bag_multiset(self@) =~= bag_multiset(other@));
        }
        true
    }
}

impl vstd::std_specs::cmp::PartialEqSpecImpl for Bag {
    open spec fn obeys_eq_spec() -> bool {
        true
    }

    open spec fn eq_spec(&self, other: &Bag) -> bool {
        bag_multiset(self@) == bag_multiset(other@)
    }
}

impl Eq for Bag {
}

impl Clone for Bag {
    fn clone(&self) -> (r: Bag)
        ensures
            r@ == self@,
    {
        Bag { collection: copy_entries(&self.collection) }
    }
}

/// Iterator over pairs of a `Template` and the rest of a `Bag`.
pub struct BagSelectionIterator {
    collection: Vec<(u8, Template)>,
    index: usize,
}

impl BagSelectionIterator {
    /// The entries of the bag being iterated.
    pub closed spec fn entries(&self) -> BagModel {
        entries_view(self.collection@)
    }

    /// How many pairs have been handed out.
    pub closed spec fn position(&self) -> int {
        self.index as int
    }

    /// Create an iterator over the entries of `bag`.
    pub fn new(bag: Bag) -> (r: BagSelectionIterator)
        ensures
            r.entries() == bag@,
            r.position() == 0,
    {
        BagSelectionIterator { index: 0, collection: bag.collection }
    }

    /// The template of the next entry that holds a copy, and the bag with one
    /// copy of it taken; entries holding no copy are skipped. `None` once every
    /// entry was passed.
    pub fn next(&mut self) -> (r: Option<(Template, Bag)>)
        requires
            0 <= old(self).position() <= old(self).entries().len(),
        ensures
            final(self).entries() == old(self).entries(),
            ({
                let k = next_stocked(old(self).entries(), old(self).position());
                k < old(self).entries().len() ==> (r matches Some(pair) && pair.0@
                    == old(self).entries()[k].1 && pair.1@ == select(old(self).entries(), k))
                    && final(self).position() == k + 1
            }),
            next_stocked(old(self).entries(), old(self).position()) == old(self).entries().len()
                ==> r is None && final(self).position() == old(self).entries().len(),
    {
        let ghost start = self.index as int;
        proof {
            lemma_next_stocked(self.entries(), start);
        }
        while self.index < self.collection.len() && self.collection[self.index].0 == 0
            invariant
                start <= self.index <= self.collection.len(),
                self.entries() == old(self).entries(),
                next_stocked(self.entries(), start) == next_stocked(
                    self.entries(),
                    self.index as int,
                ),
            decreases self.collection.len() - self.index,
        {
            assert(self.entries()[self.index as int].0 == 0);
            self.index = self.index + 1;
        }
        if self.index < self.collection.len() {
            assert(self.entries()[self.index as int].0 > 0);
            let mut collection = copy_entries(&self.collection);
            let i = self.index;
            assert(next_stocked(self.entries(), i as int) == i);
            let ghost entries = entries_view(collection@);
            let template;
            if collection[i].0 > 1 {
                template = collection[i].1.clone();
                let count = collection[i].0 - 1;
                let (_, t) = collection.remove(i);
                collection.insert(i, (count, t));
                assert(entries_view(collection@) =~= select(entries, i as int));
            } else {
                let pair = collection.swap_remove(i);
                template = pair.1;
                assert(entries_view(collection@) =~= select(entries, i as int));
            }
            self.index = self.index + 1;
            Some((template, Bag::new(collection)))
        } else {
            None
        }
    }
}

} // verus!
