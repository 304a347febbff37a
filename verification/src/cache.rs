//! The executable cache.
use crate::brush::same_brush;
use crate::key::{CacheKey, KeyView};
use crate::model::{
    lemma_evict_item_wf, lemma_evict_tree_wf, lemma_first_vacant, lemma_recolor_wf, lemma_slot_of, lemma_store_wf, lemma_target, CacheView, EntryView, ItemId,
    LayoutView, SLOT_COUNT,
};
use crate::paragraph::{PhysicalLength, PhysicalRect, TextParagraphLayout};
use i_slint_core::Brush;
use vstd::prelude::*;
use vstd::std_specs::cmp::PartialEqSpec;

verus! {

struct CacheEntry<S, L> {
    item: Option<ItemId>,
    key: CacheKey,
    color: Brush,
    shape_buffer: S,
    lines: Vec<L>,
}

impl<S, L> CacheEntry<S, L> {
    spec fn view(&self) -> EntryView<S, L> {
        EntryView {
            item: self.item,
            key: self.key@,
            color: self.color,
            layout: LayoutView { shape_buffer: self.shape_buffer, lines: self.lines@ },
        }
    }
}

spec fn slot_view<S, L>(slot: Option<CacheEntry<S, L>>) -> Option<EntryView<S, L>> {
    match slot {
        Some(entry) => Some(entry.view()),
        None => None,
    }
}

/// Cache of shaped glyphs and broken lines, keyed by item and layout input.
///
/// `S` is the shape buffer of a paragraph, and `L` is one of its lines.
pub struct TextLayoutCache<S, L> {
    slots: [Option<CacheEntry<S, L>>; SLOT_COUNT],
    /// Next slot to overwrite once every slot holds an entry.
    round_robin: usize,
}

impl<S, L> View for TextLayoutCache<S, L> {
    type V = CacheView<S, L>;

    closed spec fn view(&self) -> CacheView<S, L> {
        CacheView {
            slots: self.slots@.map_values(|slot: Option<CacheEntry<S, L>>| slot_view(slot)),
            round_robin: self.round_robin as int,
        }
    }
}

/// The layout that a shape buffer and its lines make up.
pub open spec fn layout_view<S, L>(out: (S, Vec<L>)) -> LayoutView<S, L> {
    LayoutView { shape_buffer: out.0, lines: out.1@ }
}

/// `layout` is a layout that `shape` may compute for `paragraph`.
pub open spec fn shapes<S, L, Shape: FnOnce(&TextParagraphLayout<'_>) -> (S, Vec<L>)>(
    shape: Shape,
    paragraph: TextParagraphLayout<'_>,
    layout: LayoutView<S, L>,
) -> bool {
    exists|out: (S, Vec<L>)|
        #[trigger] call_ensures(shape, (&paragraph,), out) && layout == layout_view(out)
}

/// `run` may be called on `layout`.
pub open spec fn run_accepts<S, L, T, Run: FnOnce(&S, &[L]) -> T>(
    run: Run,
    layout: LayoutView<S, L>,
) -> bool {
    forall|lines: &[L]|
        lines@ == layout.lines ==> #[trigger] call_requires(run, (&layout.shape_buffer, lines))
}

/// `result` is a value that `run` may return for `layout`.
pub open spec fn run_returns<S, L, T, Run: FnOnce(&S, &[L]) -> T>(
    run: Run,
    layout: LayoutView<S, L>,
    result: T,
) -> bool {
    exists|lines: &[L]|
        #[trigger] call_ensures(run, (&layout.shape_buffer, lines), result) && lines@
            == layout.lines
}

/// `diff` may be called on a previous layout and a fresh one.
pub open spec fn diff_accepts<S, L, T, Diff: FnOnce(&S, &[L], &S, &[L]) -> T>(
    diff: Diff,
    previous: LayoutView<S, L>,
    fresh: LayoutView<S, L>,
) -> bool {
    forall|old_lines: &[L], new_lines: &[L]|
        old_lines@ == previous.lines && new_lines@ == fresh.lines ==> #[trigger] call_requires(
            diff,
            (&previous.shape_buffer, old_lines, &fresh.shape_buffer, new_lines),
        )
}

/// `region` is a value that `diff` may return for a previous layout and a fresh
/// one.
pub open spec fn diff_returns<S, L, T, Diff: FnOnce(&S, &[L], &S, &[L]) -> T>(
    diff: Diff,
    previous: LayoutView<S, L>,
    fresh: LayoutView<S, L>,
    region: T,
) -> bool {
    exists|old_lines: &[L], new_lines: &[L]|
        #[trigger] call_ensures(
            diff,
            (&previous.shape_buffer, old_lines, &fresh.shape_buffer, new_lines),
            region,
        ) && old_lines@ == previous.lines && new_lines@ == fresh.lines
}

/// Whether the brush recorded for `item` equals `color`, as brushes compare.
pub open spec fn same_color<S, L>(cache: CacheView<S, L>, item: ItemId, color: Brush) -> bool {
    cache.entry_of(Some(item)) matches Some(entry) && entry.color.eq_spec(&color)
}

impl<S, L> Default for TextLayoutCache<S, L> {
    /// A cache that holds nothing.
    fn default() -> (cache: TextLayoutCache<S, L>)
        ensures
            cache@.wf(),
            cache@ == CacheView::<S, L>::empty(),
    {
        let cache = TextLayoutCache {
            slots: [
                None, None, None, None, None, None, None, None, None, None, None, None,
                None, None, None, None, None, None, None, None, None, None, None, None,
            ],
            round_robin: 0,
        };
        assert(cache@ =~= CacheView::<S, L>::empty());
        cache
    }
}

impl<S, L> TextLayoutCache<S, L> {
    /// The slot that holds the entry of `item`.
    fn find_item(&self, item: Option<ItemId>) -> (slot: Option<usize>)
        requires
            self@.wf(),
        ensures
            match slot {
                Some(i) => i < SLOT_COUNT && self@.holds(i as int, item) && self@.slot_of(item)
                    == Some(i as int),
                None => !self@.caches(item),
            },
    {
        let mut i: usize = 0;
        while i < SLOT_COUNT
            invariant
                self@.wf(),
                i <= SLOT_COUNT,
                forall|j: int| 0 <= j < i ==> !self@.holds(j, item),
            decreases SLOT_COUNT - i,
        {
            if let Some(entry) = &self.slots[i] {
                if entry.item == item {
                    proof {
                        assert(self@.holds(i as int, item));
                        lemma_slot_of(self@, i as int, item);
                    }
                    return Some(i);
                }
            }
            i += 1;
        }
        None
    }

    /// The first slot that holds nothing.
    fn find_vacant(&self) -> (slot: Option<usize>)
        requires
            self@.wf(),
        ensures
            match slot {
                Some(i) => self@.first_vacant(i as int),
                None => self@.full(),
            },
    {
        let mut i: usize = 0;
        while i < SLOT_COUNT
            invariant
                self@.wf(),
                i <= SLOT_COUNT,
                forall|j: int| 0 <= j < i ==> !self@.vacant(j),
            decreases SLOT_COUNT - i,
        {
            if self.slots[i].is_none() {
                assert(self@.vacant(i as int));
                return Some(i);
            }
            i += 1;
        }
        None
    }

    /// Stores a layout of `item`.
    ///
    /// An item replaces its own previous entry, if any: keeping stale layouts
    /// of the same item around wastes slots and lets later lookups find the
    /// outdated one first. Otherwise the first vacant slot is taken, and, once
    /// every slot holds an entry, the slots are overwritten in turn.
    pub fn store(
        &mut self,
        item: Option<ItemId>,
        key: CacheKey,
        color: Brush,
        shape_buffer: S,
        lines: Vec<L>,
    )
        requires
            old(self)@.wf(),
        ensures
            final(self)@.wf(),
            final(self)@ == old(self)@.store(
                (EntryView {
                    item,
                    key: key@,
                    color,
                    layout: LayoutView { shape_buffer, lines: lines@ },
                }),
            ),
    {
        let ghost before = self@;
        let entry = CacheEntry { item, key, color, shape_buffer, lines };
        let ghost stored = entry.view();
        proof {
            lemma_target(before, item);
            lemma_store_wf(before, stored);
        }
        let slot: usize = match self.find_item(item) {
            Some(i) => i,
            None => match self.find_vacant() {
                Some(i) => {
                    proof {
                        lemma_first_vacant(before, i as int, item);
                    }
                    i
                },
                None => {
                    let i: usize = self.round_robin;
                    self.round_robin = (i + 1) % SLOT_COUNT;
                    i
                },
            },
        };
        self.slots[slot] = Some(entry);
        assert(self@ =~= before.store(stored));
    }

    /// The slot whose entry a lookup of `item` and `key` is served from.
    fn find_hit(&self, item: Option<ItemId>, key: &CacheKey) -> (slot: Option<usize>)
        requires
            self@.wf(),
        ensures
            match slot {
                Some(i) => {
                    &&& i < SLOT_COUNT
                    &&& self@.slot_of(item) == Some(i as int)
                    &&& self@.slots[i as int] is Some
                    &&& self@.lookup(item, key@) == Some(self@.slots[i as int]->0.layout)
                },
                None => self@.lookup(item, key@) is None,
            },
    {
        if let Some(i) = self.find_item(item) {
            if let Some(entry) = &self.slots[i] {
                if entry.key == *key {
                    return Some(i);
                }
            }
        }
        None
    }

    /// Lays out `paragraph`, serving the shape buffer and the lines from the
    /// cache when an entry for the same item, string, font and layout inputs is
    /// present, and computing them with `shape_and_break` and storing them
    /// otherwise. `run` receives the shape buffer and the lines in both cases,
    /// and its result is returned.
    ///
    /// `color` is recorded on the entry; it takes no part in the lookup.
    pub fn with_layout<R>(
        &mut self,
        item: Option<ItemId>,
        paragraph: &TextParagraphLayout<'_>,
        font_identity: &[u8],
        color: Brush,
        shape_and_break: impl FnOnce(&TextParagraphLayout<'_>) -> (S, Vec<L>),
        run: impl FnOnce(&S, &[L]) -> Result<PhysicalLength, R>,
    ) -> (result: Result<PhysicalLength, R>)
        requires
            old(self)@.wf(),
            match old(self)@.lookup(item, KeyView::of(font_identity@, *paragraph)) {
                Some(layout) => run_accepts(run, layout),
                None => {
                    &&& call_requires(shape_and_break, (paragraph,))
                    &&& forall|layout: LayoutView<S, L>|
                        #![trigger shapes(shape_and_break, *paragraph, layout)]
                        shapes(shape_and_break, *paragraph, layout) ==> run_accepts(run, layout)
                },
            },
        ensures
            final(self)@.wf(),
            match old(self)@.lookup(item, KeyView::of(font_identity@, *paragraph)) {
                Some(layout) => {
                    &&& run_returns(run, layout, result)
                    &&& final(self)@ == old(self)@.recolor(item, color)
                    &&& final(self)@ == old(self)@.draw(
                        (EntryView {
                            item,
                            key: KeyView::of(font_identity@, *paragraph),
                            color,
                            layout,
                        }),
                    )
                },
                None => exists|layout: LayoutView<S, L>|
                    #![trigger shapes(shape_and_break, *paragraph, layout)]
                    {
                        &&& shapes(shape_and_break, *paragraph, layout)
                        &&& run_returns(run, layout, result)
                        &&& final(self)@ == old(self)@.store(
                            (EntryView {
                                item,
                                key: KeyView::of(font_identity@, *paragraph),
                                color,
                                layout,
                            }),
                        )
                        &&& final(self)@ == old(self)@.draw(
                            (EntryView {
                                item,
                                key: KeyView::of(font_identity@, *paragraph),
                                color,
                                layout,
                            }),
                        )
                    },
            },
    {
        let ghost before = self@;
        let key = CacheKey::new(font_identity, paragraph);
        if let Some(i) = self.find_hit(item, &key) {
            if let Some(entry) = &mut self.slots[i] {
                entry.color = color;
                let lines = entry.lines.as_slice();
                let ghost layout = before.lookup(item, key@)->0;
                assert(call_requires(run, (&layout.shape_buffer, lines)));
                let result = run(&entry.shape_buffer, lines);
                proof {
                    assert(call_ensures(run, (&layout.shape_buffer, lines), result));
                    assert(self@ =~= before.recolor(item, color));
                    lemma_recolor_wf(before, item, color);
                }
                return result;
            }
        }
        let out = shape_and_break(paragraph);
        let ghost layout = layout_view(out);
        assert(call_ensures(shape_and_break, (paragraph,), out));
        assert(shapes(shape_and_break, *paragraph, layout));
        let lines = out.1.as_slice();
        assert(call_requires(run, (&layout.shape_buffer, lines)));
        let result = run(&out.0, lines);
        assert(call_ensures(run, (&layout.shape_buffer, lines), result));
        self.store(item, key, color, out.0, out.1);
        result
    }

    /// The brush that the paragraph of `item` was last drawn with, if it has an
    /// entry.
    pub fn recorded_color(&self, item: ItemId) -> (color: Option<&Brush>)
        requires
            self@.wf(),
        ensures
            match self@.entry_of(Some(item)) {
                Some(entry) => color == Some(&entry.color),
                None => color is None,
            },
    {
        if let Some(i) = self.find_item(Some(item)) {
            if let Some(entry) = &self.slots[i] {
                return Some(&entry.color);
            }
        }
        None
    }

    /// Diffs the glyphs of the item's previous layout against a fresh layout of
    /// the current paragraph, and stores the fresh one.
    ///
    /// Returns `None`, and leaves the cache as it is, unless an entry for
    /// `item` exists whose key matches the current one except for the string,
    /// and whose color matches `color`: then the pixels can only differ where
    /// the text differs, and what `diff` finds is returned. When the strings
    /// are equal the layout is identical and `None` is returned as well: the
    /// pixels did not change, but the item still needs its (cheap) redraw.
    ///
    /// `diff` receives the previous and the fresh shape buffer and lines and
    /// produces the item-local bounding rect of the changed pixels.
    pub fn text_changed_region(
        &mut self,
        item: ItemId,
        paragraph: &TextParagraphLayout<'_>,
        font_identity: &[u8],
        color: Brush,
        shape_and_break: impl FnOnce(&TextParagraphLayout<'_>) -> (S, Vec<L>),
        diff: impl FnOnce(&S, &[L], &S, &[L]) -> Option<PhysicalRect>,
    ) -> (region: Option<PhysicalRect>)
        requires
            old(self)@.wf(),
            old(self)@.diff_base(
                item,
                KeyView::of(font_identity@, *paragraph),
                same_color(old(self)@, item, color),
            ) matches Some(previous) ==> {
                &&& call_requires(shape_and_break, (paragraph,))
                &&& forall|fresh: LayoutView<S, L>|
                    #![trigger shapes(shape_and_break, *paragraph, fresh)]
                    shapes(shape_and_break, *paragraph, fresh) ==> diff_accepts(
                        diff,
                        previous,
                        fresh,
                    )
            },
        ensures
            final(self)@.wf(),
            match old(self)@.diff_base(
                item,
                KeyView::of(font_identity@, *paragraph),
                same_color(old(self)@, item, color),
            ) {
                Some(previous) => exists|fresh: LayoutView<S, L>|
                    #![trigger shapes(shape_and_break, *paragraph, fresh)]
                    {
                        &&& shapes(shape_and_break, *paragraph, fresh)
                        &&& diff_returns(diff, previous, fresh, region)
                        &&& final(self)@ == old(self)@.store(
                            (EntryView {
                                item: Some(item),
                                key: KeyView::of(font_identity@, *paragraph),
                                color,
                                layout: fresh,
                            }),
                        )
                    },
                None => region is None && final(self)@ == old(self)@,
            },
    {
        let unchanged_color = match self.recorded_color(item) {
            Some(recorded) => same_brush(recorded, &color),
            None => false,
        };
        self.diff_and_store(
            item,
            paragraph,
            font_identity,
            color,
            unchanged_color,
            shape_and_break,
            diff,
        )
    }

    /// [`text_changed_region`](Self::text_changed_region), told by
    /// `unchanged_color` whether the brush recorded for `item` equals `color`.
    pub fn diff_and_store(
        &mut self,
        item: ItemId,
        paragraph: &TextParagraphLayout<'_>,
        font_identity: &[u8],
        color: Brush,
        unchanged_color: bool,
        shape_and_break: impl FnOnce(&TextParagraphLayout<'_>) -> (S, Vec<L>),
        diff: impl FnOnce(&S, &[L], &S, &[L]) -> Option<PhysicalRect>,
    ) -> (region: Option<PhysicalRect>)
        requires
            old(self)@.wf(),
            old(self)@.diff_base(
                item,
                KeyView::of(font_identity@, *paragraph),
                unchanged_color,
            ) matches Some(previous) ==> {
                &&& call_requires(shape_and_break, (paragraph,))
                &&& forall|fresh: LayoutView<S, L>|
                    #![trigger shapes(shape_and_break, *paragraph, fresh)]
                    shapes(shape_and_break, *paragraph, fresh) ==> diff_accepts(
                        diff,
                        previous,
                        fresh,
                    )
            },
        ensures
            final(self)@.wf(),
            match old(self)@.diff_base(
                item,
                KeyView::of(font_identity@, *paragraph),
                unchanged_color,
            ) {
                Some(previous) => exists|fresh: LayoutView<S, L>|
                    #![trigger shapes(shape_and_break, *paragraph, fresh)]
                    {
                        &&& shapes(shape_and_break, *paragraph, fresh)
                        &&& diff_returns(diff, previous, fresh, region)
                        &&& final(self)@ == old(self)@.store(
                            (EntryView {
                                item: Some(item),
                                key: KeyView::of(font_identity@, *paragraph),
                                color,
                                layout: fresh,
                            }),
                        )
                    },
                None => region is None && final(self)@ == old(self)@,
            },
    {
        if !unchanged_color {
            return None;
        }
        let key = CacheKey::new(font_identity, paragraph);
        let slot: usize = match self.find_item(Some(item)) {
            Some(i) => i,
            None => {
                return None;
            },
        };
        let ghost before = self@;
        if let Some(entry) = &self.slots[slot] {
            if entry.key == key {
                // The layout is unchanged: this dirtiness comes from a property
                // outside the key, which the caller covers with the full rect.
                return None;
            }
            if !entry.key.matches_except_string(&key) {
                return None;
            }
            let out = shape_and_break(paragraph);
            let ghost previous = before.slots[slot as int]->0.layout;
            let ghost fresh = layout_view(out);
            assert(call_ensures(shape_and_break, (paragraph,), out));
            assert(shapes(shape_and_break, *paragraph, fresh));
            let old_lines = entry.lines.as_slice();
            let new_lines = out.1.as_slice();
            assert(call_requires(
                diff,
                (&previous.shape_buffer, old_lines, &fresh.shape_buffer, new_lines),
            ));
            let region = diff(&entry.shape_buffer, old_lines, &out.0, new_lines);
            assert(call_ensures(
                diff,
                (&previous.shape_buffer, old_lines, &fresh.shape_buffer, new_lines),
                region,
            ));
            self.store(Some(item), key, color, out.0, out.1);
            return region;
        }
        None
    }

    /// Makes slot `i` vacant.
    fn clear(&mut self, i: usize)
        requires
            i < SLOT_COUNT,
        ensures
            final(self)@ == (CacheView {
                slots: old(self)@.slots.update(i as int, None),
                ..old(self)@
            }),
    {
        let ghost before = self@;
        self.slots[i] = None;
        assert(self@.slots =~= before.slots.update(i as int, None));
    }

    /// Drops the item's entry, if any. Called on every path where the draw is
    /// going to skip the item: with no previous layout left behind, the next
    /// change finds no diff base and falls back to the full rect instead of
    /// diffing against pixels never shown.
    pub fn evict_item(&mut self, item: ItemId)
        requires
            old(self)@.wf(),
        ensures
            final(self)@.wf(),
            final(self)@ == old(self)@.evict_item(item),
    {
        let ghost before = self@;
        let mut i: usize = 0;
        while i < SLOT_COUNT
            invariant
                before.wf(),
                i <= SLOT_COUNT,
                self@.slots.len() == SLOT_COUNT,
                self@.round_robin == before.round_robin,
                forall|j: int|
                    0 <= j < SLOT_COUNT ==> #[trigger] self@.slots[j] == if j < i {
                        before.evict_item(item).slots[j]
                    } else {
                        before.slots[j]
                    },
            decreases SLOT_COUNT - i,
        {
            let evicted = match &self.slots[i] {
                Some(entry) => entry.item == Some(item),
                None => false,
            };
            assert(self@.slots[i as int] == before.slots[i as int]);
            if evicted {
                self.clear(i);
            }
            i += 1;
        }
        proof {
            assert(self@ =~= before.evict_item(item));
            lemma_evict_item_wf(before, item);
        }
    }

    /// Drops every entry drawn by items of a destroyed tree, so a later tree
    /// reusing the same address can never match its layouts.
    pub fn evict_tree(&mut self, tree: usize)
        requires
            old(self)@.wf(),
        ensures
            final(self)@.wf(),
            final(self)@ == old(self)@.evict_tree(tree),
    {
        let ghost before = self@;
        let mut i: usize = 0;
        while i < SLOT_COUNT
            invariant
                before.wf(),
                i <= SLOT_COUNT,
                self@.slots.len() == SLOT_COUNT,
                self@.round_robin == before.round_robin,
                forall|j: int|
                    0 <= j < SLOT_COUNT ==> #[trigger] self@.slots[j] == if j < i {
                        before.evict_tree(tree).slots[j]
                    } else {
                        before.slots[j]
                    },
            decreases SLOT_COUNT - i,
        {
            let destroyed = match &self.slots[i] {
                Some(entry) => match entry.item {
                    Some((item_tree, _)) => item_tree == tree,
                    None => false,
                },
                None => false,
            };
            assert(self@.slots[i as int] == before.slots[i as int]);
            if destroyed {
                self.clear(i);
            }
            i += 1;
        }
        proof {
            assert(self@ =~= before.evict_tree(tree));
            lemma_evict_tree_wf(before, tree);
        }
    }
}

} // verus!
