//! The cache as a mathematical object: what it holds, and what each operation
//! turns it into.
use crate::key::KeyView;
use i_slint_core::Brush;
use vstd::prelude::*;

verus! {

/// Number of paragraphs kept per cache instance.
///
/// A frame lays out each dirty text item once, and the dirty-region computation
/// may lay out an item before it is drawn. The slots must cover every text item
/// that a cold frame draws: with fewer slots than items the round-robin evicts
/// entries of items drawn earlier in the same frame.
pub const SLOT_COUNT: usize = 24;

/// What identifies an item: the address of its tree and its index in that tree.
pub type ItemId = (usize, u32);

/// A shaped and broken paragraph. The cache never looks inside either part.
#[verifier::ext_equal]
pub struct LayoutView<S, L> {
    pub shape_buffer: S,
    pub lines: Seq<L>,
}

/// An occupied slot.
#[verifier::ext_equal]
pub struct EntryView<S, L> {
    /// The item the layout was computed for, or `None` for text drawn without
    /// an item.
    pub item: Option<ItemId>,
    pub key: KeyView,
    /// The brush the paragraph was last drawn with.
    pub color: Brush,
    pub layout: LayoutView<S, L>,
}

impl<S, L> EntryView<S, L> {
    /// Whether the entry was drawn by `item`.
    pub open spec fn drawn_by(self, item: ItemId) -> bool {
        self.item == Some(item)
    }

    /// Whether the entry was drawn by an item of `tree`.
    pub open spec fn belongs_to(self, tree: usize) -> bool {
        self.item matches Some(id) && id.0 == tree
    }
}

/// The state of a cache.
#[verifier::ext_equal]
pub struct CacheView<S, L> {
    pub slots: Seq<Option<EntryView<S, L>>>,
    /// The slot that is overwritten next once every slot holds an entry.
    pub round_robin: int,
}

impl<S, L> CacheView<S, L> {
    /// The cache that holds nothing.
    pub open spec fn empty() -> CacheView<S, L> {
        CacheView { slots: Seq::new(SLOT_COUNT as nat, |i: int| None), round_robin: 0 }
    }

    /// Whether slot `i` holds an entry of `item`.
    pub open spec fn holds(self, i: int, item: Option<ItemId>) -> bool {
        &&& 0 <= i < self.slots.len()
        &&& self.slots[i] is Some
        &&& self.slots[i]->0.item == item
    }

    /// Whether slot `i` is vacant.
    pub open spec fn vacant(self, i: int) -> bool {
        &&& 0 <= i < self.slots.len()
        &&& self.slots[i] is None
    }

    /// The invariant of a cache: it has its fixed number of slots, the
    /// round-robin points at one of them, and no item has two entries.
    pub open spec fn wf(self) -> bool {
        &&& self.slots.len() == SLOT_COUNT
        &&& 0 <= self.round_robin < SLOT_COUNT
        &&& forall|i: int, j: int, item: Option<ItemId>|
            #[trigger] self.holds(i, item) && #[trigger] self.holds(j, item) ==> i == j
    }

    /// Whether `item` has an entry.
    pub open spec fn caches(self, item: Option<ItemId>) -> bool {
        exists|i: int| self.holds(i, item)
    }

    /// Whether every slot holds an entry.
    pub open spec fn full(self) -> bool {
        forall|i: int| !self.vacant(i)
    }

    /// The slot of `item`, if it has an entry.
    pub open spec fn slot_of(self, item: Option<ItemId>) -> Option<int> {
        if self.caches(item) {
            Some(choose|i: int| self.holds(i, item))
        } else {
            None
        }
    }

    /// The entry of `item`, if it has one.
    pub open spec fn entry_of(self, item: Option<ItemId>) -> Option<EntryView<S, L>> {
        match self.slot_of(item) {
            Some(i) => self.slots[i],
            None => None,
        }
    }

    /// Whether slot `i` is the first vacant one.
    pub open spec fn first_vacant(self, i: int) -> bool {
        &&& self.vacant(i)
        &&& forall|j: int| 0 <= j < i ==> !#[trigger] self.vacant(j)
    }

    /// The slot that a new entry of `item` goes to: the slot of its previous
    /// entry, else the first vacant slot, else the round-robin slot.
    pub open spec fn target(self, item: Option<ItemId>) -> int {
        match self.slot_of(item) {
            Some(i) => i,
            None => if self.full() {
                self.round_robin
            } else {
                choose|i: int| self.first_vacant(i)
            },
        }
    }

    /// Whether storing an entry of `item` pushes out the entry of another item.
    pub open spec fn evicts_for(self, item: Option<ItemId>) -> bool {
        self.full() && !self.caches(item)
    }

    /// The cache after `entry` is stored.
    pub open spec fn store(self, entry: EntryView<S, L>) -> CacheView<S, L> {
        CacheView {
            slots: self.slots.update(self.target(entry.item), Some(entry)),
            round_robin: if self.evicts_for(entry.item) {
                (self.round_robin + 1) % (SLOT_COUNT as int)
            } else {
                self.round_robin
            },
        }
    }

    /// The layout that a lookup of `item` and `key` is served, if any.
    pub open spec fn lookup(self, item: Option<ItemId>, key: KeyView) -> Option<LayoutView<S, L>> {
        match self.entry_of(item) {
            Some(entry) if entry.key == key => Some(entry.layout),
            _ => None,
        }
    }

    /// The cache after the entry of `item`, which must have one, is drawn with
    /// `color`.
    pub open spec fn recolor(self, item: Option<ItemId>, color: Brush) -> CacheView<S, L> {
        let entry = self.entry_of(item)->0;
        CacheView {
            slots: self.slots.update(
                self.slot_of(item)->0,
                Some(EntryView { color, ..entry }),
            ),
            ..self
        }
    }

    /// The layout that a draw works on, where `drawn.layout` is what laying out
    /// the paragraph anew would give.
    pub open spec fn served(self, drawn: EntryView<S, L>) -> LayoutView<S, L> {
        match self.lookup(drawn.item, drawn.key) {
            Some(layout) => layout,
            None => drawn.layout,
        }
    }

    /// The cache after a draw, where `drawn.layout` is what laying out the
    /// paragraph anew would give.
    pub open spec fn draw(self, drawn: EntryView<S, L>) -> CacheView<S, L> {
        match self.lookup(drawn.item, drawn.key) {
            Some(_) => self.recolor(drawn.item, drawn.color),
            None => self.store(drawn),
        }
    }

    /// The cache after a sequence of draws.
    pub open spec fn draw_all(self, draws: Seq<EntryView<S, L>>) -> CacheView<S, L>
        decreases draws.len(),
    {
        if draws.len() == 0 {
            self
        } else {
            self.draw_all(draws.drop_last()).draw(draws.last())
        }
    }

    /// Whether every stored layout is the one that `layout_of` gives for its
    /// key.
    pub open spec fn agrees_with(self, layout_of: spec_fn(KeyView) -> LayoutView<S, L>) -> bool {
        forall|i: int|
            0 <= i < self.slots.len() && #[trigger] self.slots[i] is Some
                ==> self.slots[i]->0.layout == layout_of(self.slots[i]->0.key)
    }

    /// The layout that the glyphs of a new layout of `item` under `key` may be
    /// diffed against: that of its entry, if the brush is unchanged and only
    /// the string differs.
    pub open spec fn diff_base(
        self,
        item: ItemId,
        key: KeyView,
        same_color: bool,
    ) -> Option<LayoutView<S, L>> {
        match self.entry_of(Some(item)) {
            Some(entry) if same_color && entry.key != key && entry.key.matches_except_string(key)
                => Some(entry.layout),
            _ => None,
        }
    }

    /// The cache without the entry of `item`.
    pub open spec fn evict_item(self, item: ItemId) -> CacheView<S, L> {
        CacheView {
            slots: self.slots.map_values(
                |slot: Option<EntryView<S, L>>|
                    if slot matches Some(entry) && entry.drawn_by(item) {
                        None
                    } else {
                        slot
                    },
            ),
            ..self
        }
    }

    /// The cache without the entries of items of `tree`.
    pub open spec fn evict_tree(self, tree: usize) -> CacheView<S, L> {
        CacheView {
            slots: self.slots.map_values(
                |slot: Option<EntryView<S, L>>|
                    if slot matches Some(entry) && entry.belongs_to(tree) {
                        None
                    } else {
                        slot
                    },
            ),
            ..self
        }
    }
}

/// The slot of an item is the only one that holds an entry of it.
pub proof fn lemma_slot_of<S, L>(cache: CacheView<S, L>, i: int, item: Option<ItemId>)
    requires
        cache.wf(),
        cache.holds(i, item),
    ensures
        cache.slot_of(item) == Some(i),
        cache.entry_of(item) == cache.slots[i],
{
    let k = choose|k: int| cache.holds(k, item);
    assert(cache.holds(k, item));
}

/// There is at most one first vacant slot.
pub proof fn lemma_first_vacant<S, L>(cache: CacheView<S, L>, i: int, item: Option<ItemId>)
    requires
        cache.first_vacant(i),
        !cache.caches(item),
    ensures
        cache.target(item) == i,
        !cache.full(),
{
    let k = choose|k: int| cache.first_vacant(k);
    assert(cache.first_vacant(k));
    assert(cache.vacant(i) && cache.vacant(k));
}

/// A cache that is not full has a first vacant slot, and a new entry of an item
/// that has none goes there.
pub proof fn lemma_not_full<S, L>(cache: CacheView<S, L>, item: Option<ItemId>)
    requires
        !cache.full(),
        !cache.caches(item),
    ensures
        cache.first_vacant(cache.target(item)),
{
    let k = choose|k: int| cache.vacant(k);
    lemma_least_vacant(cache, k);
    let i = choose|i: int| cache.first_vacant(i);
    assert(cache.first_vacant(i));
}

/// Below every vacant slot, or at it, is a first one.
proof fn lemma_least_vacant<S, L>(cache: CacheView<S, L>, k: int)
    requires
        cache.vacant(k),
    ensures
        exists|i: int| cache.first_vacant(i),
    decreases k,
{
    if exists|j: int| 0 <= j < k && cache.vacant(j) {
        let j = choose|j: int| 0 <= j < k && cache.vacant(j);
        lemma_least_vacant(cache, j);
    } else {
        assert(cache.first_vacant(k));
    }
}

/// The target of a store is a slot of the cache, and holds either the previous
/// entry of the item, or nothing, or, where the store evicts, another entry.
pub proof fn lemma_target<S, L>(cache: CacheView<S, L>, item: Option<ItemId>)
    requires
        cache.wf(),
    ensures
        0 <= cache.target(item) < SLOT_COUNT,
        cache.caches(item) ==> cache.holds(cache.target(item), item),
        !cache.caches(item) && !cache.full() ==> cache.first_vacant(cache.target(item)),
        cache.evicts_for(item) ==> cache.target(item) == cache.round_robin
            && cache.slots[cache.round_robin] is Some,
{
    if cache.caches(item) {
        let i = choose|i: int| cache.holds(i, item);
        assert(cache.holds(i, item));
    } else if !cache.full() {
        lemma_not_full(cache, item);
    } else {
        assert(!cache.vacant(cache.round_robin));
    }
}

/// Storing an entry keeps the invariant.
pub proof fn lemma_store_wf<S, L>(cache: CacheView<S, L>, entry: EntryView<S, L>)
    requires
        cache.wf(),
    ensures
        cache.store(entry).wf(),
        cache.store(entry).holds(cache.target(entry.item), entry.item),
        cache.store(entry).slot_of(entry.item) == Some(cache.target(entry.item)),
        cache.store(entry).entry_of(entry.item) == Some(entry),
{
    lemma_target(cache, entry.item);
    let after = cache.store(entry);
    let t = cache.target(entry.item);
    assert forall|i: int, j: int, item: Option<ItemId>| #[trigger]
        after.holds(i, item) && #[trigger] after.holds(j, item) implies i == j by {
        if i != t {
            assert(cache.holds(i, item));
        }
        if j != t {
            assert(cache.holds(j, item));
        }
    }
    assert(after.holds(t, entry.item));
    lemma_slot_of(after, t, entry.item);
}

/// Recoloring an entry keeps the invariant and changes nothing but the color.
pub proof fn lemma_recolor_wf<S, L>(cache: CacheView<S, L>, item: Option<ItemId>, color: Brush)
    requires
        cache.wf(),
        cache.caches(item),
    ensures
        cache.recolor(item, color).wf(),
        forall|i: int, other: Option<ItemId>|
            #[trigger] cache.recolor(item, color).holds(i, other) <==> cache.holds(i, other),
        cache.recolor(item, color).entry_of(item) == Some(
            EntryView { color, ..cache.entry_of(item)->0 },
        ),
{
    let after = cache.recolor(item, color);
    let t = choose|i: int| cache.holds(i, item);
    lemma_slot_of(cache, t, item);
    assert forall|i: int, other: Option<ItemId>| #[trigger] after.holds(i, other) <==> cache.holds(
        i,
        other,
    ) by {}
    assert forall|i: int, j: int, other: Option<ItemId>| #[trigger]
        after.holds(i, other) && #[trigger] after.holds(j, other) implies i == j by {
        assert(cache.holds(i, other) && cache.holds(j, other));
    }
    assert(after.holds(t, item));
    lemma_slot_of(after, t, item);
}

/// Dropping an item keeps the invariant.
pub proof fn lemma_evict_item_wf<S, L>(cache: CacheView<S, L>, item: ItemId)
    requires
        cache.wf(),
    ensures
        cache.evict_item(item).wf(),
        forall|i: int, other: Option<ItemId>|
            #[trigger] cache.evict_item(item).holds(i, other) <==> cache.holds(i, other)
                && other != Some(item),
{
    let after = cache.evict_item(item);
    assert forall|i: int, other: Option<ItemId>| #[trigger] after.holds(i, other) <==> cache.holds(
        i,
        other,
    ) && other != Some(item) by {}
    assert forall|i: int, j: int, other: Option<ItemId>| #[trigger]
        after.holds(i, other) && #[trigger] after.holds(j, other) implies i == j by {
        assert(cache.holds(i, other) && cache.holds(j, other));
    }
}

/// Dropping a tree keeps the invariant.
pub proof fn lemma_evict_tree_wf<S, L>(cache: CacheView<S, L>, tree: usize)
    requires
        cache.wf(),
    ensures
        cache.evict_tree(tree).wf(),
        forall|i: int, other: Option<ItemId>|
            #[trigger] cache.evict_tree(tree).holds(i, other) <==> cache.holds(i, other) && !(
            other matches Some(id) && id.0 == tree),
{
    let after = cache.evict_tree(tree);
    assert forall|i: int, other: Option<ItemId>| #[trigger] after.holds(i, other) <==> cache.holds(
        i,
        other,
    ) && !(other matches Some(id) && id.0 == tree) by {}
    assert forall|i: int, j: int, other: Option<ItemId>| #[trigger]
        after.holds(i, other) && #[trigger] after.holds(j, other) implies i == j by {
        assert(cache.holds(i, other) && cache.holds(j, other));
    }
}

} // verus!
