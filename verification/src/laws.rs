//! What holds of the cache as a whole.
use crate::key::KeyView;
use crate::model::{
    lemma_evict_item_wf, lemma_evict_tree_wf, lemma_first_vacant, lemma_recolor_wf, lemma_slot_of, lemma_store_wf,
    lemma_target, CacheView, EntryView, ItemId, LayoutView, SLOT_COUNT,
};
use crate::paragraph::TextParagraphLayout;
use i_slint_core::Brush;
use vstd::prelude::*;

verus! {

/// Two paragraphs have the same key exactly if they are set in the same font
/// and agree on the text, the geometry and every option.
pub proof fn law_key_is_exact(
    font1: Seq<u8>,
    paragraph1: TextParagraphLayout<'_>,
    font2: Seq<u8>,
    paragraph2: TextParagraphLayout<'_>,
)
    ensures
        KeyView::of(font1, paragraph1) == KeyView::of(font2, paragraph2) <==> {
            &&& font1 == font2
            &&& paragraph1.string@ == paragraph2.string@
            &&& paragraph1.layout == paragraph2.layout
            &&& paragraph1.max_width == paragraph2.max_width
            &&& paragraph1.max_height == paragraph2.max_height
            &&& paragraph1.horizontal_alignment == paragraph2.horizontal_alignment
            &&& paragraph1.vertical_alignment == paragraph2.vertical_alignment
            &&& paragraph1.wrap == paragraph2.wrap
            &&& paragraph1.overflow == paragraph2.overflow
            &&& paragraph1.single_line == paragraph2.single_line
            &&& paragraph1.max_lines == paragraph2.max_lines
        },
{
    vstd::utf8::encode_utf8_decode_utf8(paragraph1.string@);
    vstd::utf8::encode_utf8_decode_utf8(paragraph2.string@);
}

/// Two keys are equal exactly if they agree on the string and on everything
/// except the string.
pub proof fn law_key_splits_at_string(a: KeyView, b: KeyView)
    ensures
        a == b <==> a.matches_except_string(b) && a.string == b.string,
{
}

/// Agreeing on everything except the string is an equivalence.
pub proof fn law_matches_except_string_is_equivalence(a: KeyView, b: KeyView, c: KeyView)
    ensures
        a.matches_except_string(a),
        a.matches_except_string(b) ==> b.matches_except_string(a),
        a.matches_except_string(b) && b.matches_except_string(c) ==> a.matches_except_string(c),
{
}

/// Storing an entry leaves the entries of all other items alone, except that a
/// store into a full cache pushes out the entry in the round-robin slot.
pub proof fn law_store_keeps_other_items<S, L>(
    cache: CacheView<S, L>,
    entry: EntryView<S, L>,
    other: Option<ItemId>,
)
    requires
        cache.wf(),
        other != entry.item,
    ensures
        cache.store(entry).entry_of(other) == if cache.evicts_for(entry.item)
            && cache.slot_of(other) == Some(cache.round_robin) {
            None
        } else {
            cache.entry_of(other)
        },
{
    lemma_target(cache, entry.item);
    lemma_store_wf(cache, entry);
    let after = cache.store(entry);
    let t = cache.target(entry.item);
    if cache.caches(other) {
        let i = choose|i: int| cache.holds(i, other);
        lemma_slot_of(cache, i, other);
        if i != t {
            assert(after.holds(i, other));
            lemma_slot_of(after, i, other);
        } else {
            assert forall|j: int| !after.holds(j, other) by {
                if j != t && after.holds(j, other) {
                    assert(cache.holds(j, other));
                }
            }
        }
    } else {
        assert forall|j: int| !after.holds(j, other) by {
            if j != t && after.holds(j, other) {
                assert(cache.holds(j, other));
            }
        }
    }
}

/// A stored layout is what the next lookup with the same inputs is served, and
/// no lookup of the same item with other inputs is served anything: its earlier
/// layout is gone.
pub proof fn law_lookup_after_store<S, L>(
    cache: CacheView<S, L>,
    entry: EntryView<S, L>,
    key: KeyView,
)
    requires
        cache.wf(),
    ensures
        cache.store(entry).lookup(entry.item, key) == if key == entry.key {
            Some(entry.layout)
        } else {
            None
        },
{
    lemma_store_wf(cache, entry);
}

/// Recording another color changes no lookup: a color change keeps every entry
/// servable.
pub proof fn law_recolor_changes_no_lookup<S, L>(
    cache: CacheView<S, L>,
    item: Option<ItemId>,
    color: Brush,
    other: Option<ItemId>,
    key: KeyView,
)
    requires
        cache.wf(),
        cache.caches(item),
    ensures
        cache.recolor(item, color).lookup(other, key) == cache.lookup(other, key),
{
    lemma_recolor_wf(cache, item, color);
    let after = cache.recolor(item, color);
    let t = choose|i: int| cache.holds(i, item);
    lemma_slot_of(cache, t, item);
    if cache.caches(other) {
        let i = choose|i: int| cache.holds(i, other);
        lemma_slot_of(cache, i, other);
        assert(after.holds(i, other));
        lemma_slot_of(after, i, other);
    } else {
        assert forall|j: int| !after.holds(j, other) by {
            assert(after.holds(j, other) <==> cache.holds(j, other));
        }
    }
}

/// An item whose entry was dropped is served nothing and diffed against
/// nothing, whatever the inputs, until it is stored again. All other entries,
/// those drawn without an item among them, stay.
pub proof fn law_evicted_item_is_forgotten<S, L>(
    cache: CacheView<S, L>,
    item: ItemId,
    key: KeyView,
    same_color: bool,
    other: Option<ItemId>,
)
    requires
        cache.wf(),
        other != Some(item),
    ensures
        cache.evict_item(item).lookup(Some(item), key) is None,
        cache.evict_item(item).diff_base(item, key, same_color) is None,
        cache.evict_item(item).entry_of(other) == cache.entry_of(other),
{
    lemma_evict_item_wf(cache, item);
    lemma_entry_kept(cache, cache.evict_item(item), other);
    assert(!cache.evict_item(item).caches(Some(item)));
}

/// Once a tree is destroyed, no item of it is served anything or diffed against
/// anything, so a later tree at the same address can never match its layouts.
/// The entries of other trees, and those drawn without an item, stay.
pub proof fn law_destroyed_tree_is_forgotten<S, L>(
    cache: CacheView<S, L>,
    tree: usize,
    index: u32,
    key: KeyView,
    same_color: bool,
    other: Option<ItemId>,
)
    requires
        cache.wf(),
        other matches Some(id) ==> id.0 != tree,
    ensures
        cache.evict_tree(tree).lookup(Some((tree, index)), key) is None,
        cache.evict_tree(tree).diff_base((tree, index), key, same_color) is None,
        cache.evict_tree(tree).entry_of(other) == cache.entry_of(other),
{
    lemma_evict_tree_wf(cache, tree);
    lemma_entry_kept(cache, cache.evict_tree(tree), other);
    assert(!cache.evict_tree(tree).caches(Some((tree, index))));
}

/// Destroying a tree drops what dropping any one of its items would.
pub proof fn law_evict_tree_covers_its_items<S, L>(cache: CacheView<S, L>, tree: usize, index: u32)
    ensures
        cache.evict_item((tree, index)).evict_tree(tree) == cache.evict_tree(tree),
        cache.evict_tree(tree).evict_item((tree, index)) == cache.evict_tree(tree),
{
    assert(cache.evict_item((tree, index)).evict_tree(tree).slots =~= cache.evict_tree(tree).slots);
    assert(cache.evict_tree(tree).evict_item((tree, index)).slots =~= cache.evict_tree(tree).slots);
}

/// An item that keeps its slot keeps its entry.
proof fn lemma_entry_kept<S, L>(
    before: CacheView<S, L>,
    after: CacheView<S, L>,
    item: Option<ItemId>,
)
    requires
        before.wf(),
        after.wf(),
        forall|i: int| #[trigger] after.holds(i, item) <==> before.holds(i, item),
        forall|i: int| before.holds(i, item) ==> after.slots[i] == before.slots[i],
    ensures
        after.entry_of(item) == before.entry_of(item),
{
    if before.caches(item) {
        let i = choose|i: int| before.holds(i, item);
        lemma_slot_of(before, i, item);
        assert(after.holds(i, item));
        lemma_slot_of(after, i, item);
    } else {
        assert forall|i: int| !after.holds(i, item) by {
            assert(after.holds(i, item) <==> before.holds(i, item));
        }
    }
}

/// A diff happens exactly if the item has an entry with the same brush, another
/// string, and the same inputs besides. In particular an unchanged string is
/// never diffed.
pub proof fn law_diff_needs_only_the_string_to_differ<S, L>(
    cache: CacheView<S, L>,
    item: ItemId,
    key: KeyView,
    same_color: bool,
)
    ensures
        cache.diff_base(item, key, same_color) is Some <==> {
            &&& same_color
            &&& cache.entry_of(Some(item)) is Some
            &&& cache.entry_of(Some(item))->0.key.string != key.string
            &&& cache.entry_of(Some(item))->0.key.matches_except_string(key)
        },
        cache.lookup(Some(item), key) is Some ==> cache.diff_base(item, key, same_color) is None,
{
    if cache.entry_of(Some(item)) is Some {
        law_key_splits_at_string(cache.entry_of(Some(item))->0.key, key);
    }
}

/// After a diff the fresh layout is the one that a draw of the same paragraph
/// is served, and the one that the next change of the string is diffed against.
pub proof fn law_diff_leaves_fresh_base<S, L>(
    cache: CacheView<S, L>,
    item: ItemId,
    key: KeyView,
    color: Brush,
    fresh: LayoutView<S, L>,
    next: KeyView,
)
    requires
        cache.wf(),
        next.string != key.string,
        key.matches_except_string(next),
    ensures
        ({
            let after = cache.store(
                EntryView { item: Some(item), key, color, layout: fresh },
            );
            &&& after.lookup(Some(item), key) == Some(fresh)
            &&& after.diff_base(item, next, true) == Some(fresh)
        }),
{
    lemma_store_wf(cache, EntryView { item: Some(item), key, color, layout: fresh });
}

/// A diff puts the fresh layout where the previous one was: it pushes out no
/// other item and moves no entry.
pub proof fn law_diff_moves_nothing<S, L>(
    cache: CacheView<S, L>,
    item: ItemId,
    key: KeyView,
    color: Brush,
    fresh: LayoutView<S, L>,
    other: Option<ItemId>,
)
    requires
        cache.wf(),
        cache.caches(Some(item)),
    ensures
        ({
            let after = cache.store(
                EntryView { item: Some(item), key, color, layout: fresh },
            );
            &&& after.slot_of(other) == cache.slot_of(other)
            &&& other != Some(item) ==> after.entry_of(other) == cache.entry_of(other)
            &&& after.round_robin == cache.round_robin
        }),
{
    let entry = EntryView { item: Some(item), key, color, layout: fresh };
    let after = cache.store(entry);
    lemma_target(cache, Some(item));
    lemma_store_wf(cache, entry);
    let t = cache.target(Some(item));
    lemma_slot_of(cache, t, Some(item));
    if other != Some(item) {
        law_store_keeps_other_items(cache, entry, other);
        if cache.caches(other) {
            let i = choose|i: int| cache.holds(i, other);
            lemma_slot_of(cache, i, other);
            assert(after.holds(i, other));
            lemma_slot_of(after, i, other);
        } else {
            assert forall|i: int| !after.holds(i, other) by {
                if i != t && after.holds(i, other) {
                    assert(cache.holds(i, other));
                }
            }
        }
    }
}

/// Where shaping and breaking depend on the key alone, a draw works on exactly
/// what recomputing would give, whether it was served from the cache or not,
/// and the cache goes on holding nothing else.
pub proof fn law_draw_equals_recomputing<S, L>(
    cache: CacheView<S, L>,
    layout_of: spec_fn(KeyView) -> LayoutView<S, L>,
    drawn: EntryView<S, L>,
)
    requires
        cache.wf(),
        cache.agrees_with(layout_of),
        drawn.layout == layout_of(drawn.key),
    ensures
        cache.served(drawn) == layout_of(drawn.key),
        cache.draw(drawn).wf(),
        cache.draw(drawn).agrees_with(layout_of),
{
    lemma_target(cache, drawn.item);
    lemma_store_wf(cache, drawn);
    if cache.caches(drawn.item) {
        let i = choose|i: int| cache.holds(i, drawn.item);
        lemma_slot_of(cache, i, drawn.item);
        lemma_recolor_wf(cache, drawn.item, drawn.color);
    }
}

/// The same holds along any sequence of draws.
pub proof fn law_draws_equal_recomputing<S, L>(
    cache: CacheView<S, L>,
    layout_of: spec_fn(KeyView) -> LayoutView<S, L>,
    draws: Seq<EntryView<S, L>>,
)
    requires
        cache.wf(),
        cache.agrees_with(layout_of),
        forall|i: int|
            0 <= i < draws.len() ==> (#[trigger] draws[i]).layout == layout_of(draws[i].key),
    ensures
        cache.draw_all(draws).wf(),
        cache.draw_all(draws).agrees_with(layout_of),
        forall|i: int|
            0 <= i < draws.len() ==> cache.draw_all(draws.take(i)).served(#[trigger] draws[i])
                == layout_of(draws[i].key),
    decreases draws.len(),
{
    if draws.len() > 0 {
        let rest = draws.drop_last();
        let last = draws.last();
        assert forall|i: int| 0 <= i < rest.len() implies (#[trigger] rest[i]).layout == layout_of(
            rest[i].key,
        ) by {
            assert(draws[i].layout == layout_of(draws[i].key));
        }
        law_draws_equal_recomputing(cache, layout_of, rest);
        assert(draws[draws.len() - 1].layout == layout_of(draws[draws.len() - 1].key));
        law_draw_equals_recomputing(cache.draw_all(rest), layout_of, last);
        assert forall|i: int| 0 <= i < draws.len() implies cache.draw_all(draws.take(i)).served(
            #[trigger] draws[i],
        ) == layout_of(draws[i].key) by {
            if i < draws.len() - 1 {
                assert(draws.take(i) =~= rest.take(i));
                assert(rest[i] == draws[i]);
            } else {
                assert(draws.take(i) =~= rest);
            }
        }
    }
}

/// The other operations keep that agreement too: a new cache has it, a diff
/// works on recomputed layouts on both sides and stores one, and dropping
/// entries removes none of it.
pub proof fn law_other_operations_keep_agreement<S, L>(
    cache: CacheView<S, L>,
    layout_of: spec_fn(KeyView) -> LayoutView<S, L>,
    item: ItemId,
    key: KeyView,
    color: Brush,
    same_color: bool,
    tree: usize,
)
    requires
        cache.wf(),
        cache.agrees_with(layout_of),
    ensures
        CacheView::<S, L>::empty().agrees_with(layout_of),
        cache.diff_base(item, key, same_color) matches Some(previous) ==> previous == layout_of(
            cache.entry_of(Some(item))->0.key,
        ),
        cache.store(
            EntryView { item: Some(item), key, color, layout: layout_of(key) },
        ).agrees_with(layout_of),
        cache.evict_item(item).agrees_with(layout_of),
        cache.evict_tree(tree).agrees_with(layout_of),
{
    lemma_target(cache, Some(item));
    if cache.caches(Some(item)) {
        let i = choose|i: int| cache.holds(i, Some(item));
        lemma_slot_of(cache, i, Some(item));
    }
}

/// A paragraph that was drawn is served from the cache when it is drawn again,
/// in whatever color, and the layout is the one it was drawn with.
pub proof fn law_redraw_is_served<S, L>(cache: CacheView<S, L>, drawn: EntryView<S, L>)
    requires
        cache.wf(),
    ensures
        cache.draw(drawn).wf(),
        cache.draw(drawn).lookup(drawn.item, drawn.key) == Some(cache.served(drawn)),
        cache.draw(drawn).entry_of(drawn.item) == Some(
            EntryView { layout: cache.served(drawn), ..drawn },
        ),
{
    lemma_store_wf(cache, drawn);
    if cache.caches(drawn.item) {
        lemma_recolor_wf(cache, drawn.item, drawn.color);
    }
}

/// A draw leaves the entries of all other items alone, unless it misses on a
/// full cache.
pub proof fn law_draw_keeps_other_items<S, L>(
    cache: CacheView<S, L>,
    drawn: EntryView<S, L>,
    other: Option<ItemId>,
)
    requires
        cache.wf(),
        other != drawn.item,
        !cache.evicts_for(drawn.item),
    ensures
        cache.draw(drawn).entry_of(other) == cache.entry_of(other),
        cache.draw(drawn).caches(other) == cache.caches(other),
        cache.draw(drawn).round_robin == cache.round_robin,
{
    let after = cache.draw(drawn);
    if cache.lookup(drawn.item, drawn.key) is Some {
        lemma_recolor_wf(cache, drawn.item, drawn.color);
        let t = choose|i: int| cache.holds(i, drawn.item);
        lemma_slot_of(cache, t, drawn.item);
        assert forall|i: int| cache.holds(i, other) implies after.slots[i] == cache.slots[i] by {}
        lemma_entry_kept(cache, after, other);
    } else {
        lemma_store_wf(cache, drawn);
        law_store_keeps_other_items(cache, drawn, other);
    }
    lemma_entry_tells_caches(cache, other);
    lemma_entry_tells_caches(after, other);
}

/// An item has an entry exactly if it is cached.
proof fn lemma_entry_tells_caches<S, L>(cache: CacheView<S, L>, item: Option<ItemId>)
    requires
        cache.wf(),
    ensures
        cache.entry_of(item) is Some <==> cache.caches(item),
{
    if cache.caches(item) {
        let i = choose|i: int| cache.holds(i, item);
        lemma_slot_of(cache, i, item);
    }
}

/// A cache that only ever sees items of a scene with no more items than slots
/// never evicts.
proof fn lemma_small_scene_never_evicts<S, L>(
    cache: CacheView<S, L>,
    scene: Set<Option<ItemId>>,
    item: Option<ItemId>,
)
    requires
        cache.wf(),
        scene.finite(),
        scene.len() <= SLOT_COUNT,
        scene.contains(item),
        forall|other: Option<ItemId>| cache.caches(other) ==> scene.contains(other),
    ensures
        !cache.evicts_for(item),
{
    if cache.evicts_for(item) {
        let items = Seq::new(SLOT_COUNT as nat, |i: int| cache.slots[i]->0.item);
        assert forall|i: int| 0 <= i < SLOT_COUNT implies #[trigger] cache.holds(i, items[i]) by {
            assert(!cache.vacant(i));
        }
        assert(items.no_duplicates()) by {
            assert forall|i: int, j: int|
                0 <= i < items.len() && 0 <= j < items.len() && i != j implies items[i]
                != items[j] by {
                assert(cache.holds(i, items[i]));
                assert(cache.holds(j, items[j]));
            }
        }
        items.unique_seq_to_set();
        assert(items.to_set().subset_of(scene.remove(item))) by {
            assert forall|other: Option<ItemId>| items.to_set().contains(other) implies scene.remove(
                item,
            ).contains(other) by {
                let i = choose|i: int| 0 <= i < items.len() && items[i] == other;
                assert(cache.holds(i, other));
                assert(cache.caches(other));
            }
        }
        vstd::set_lib::lemma_len_subset(items.to_set(), scene.remove(item));
    }
}

/// As long as no more items are drawn than there are slots, no draw costs
/// another item its layout: whatever is drawn, and in whatever order, every
/// item keeps its entry, and each paragraph drawn last for its item is served
/// from the cache when it is drawn again.
pub proof fn law_small_scene_stays_cached<S, L>(
    cache: CacheView<S, L>,
    scene: Set<Option<ItemId>>,
    draws: Seq<EntryView<S, L>>,
)
    requires
        cache.wf(),
        scene.finite(),
        scene.len() <= SLOT_COUNT,
        forall|item: Option<ItemId>| cache.caches(item) ==> scene.contains(item),
        forall|i: int| 0 <= i < draws.len() ==> scene.contains(#[trigger] draws[i].item),
    ensures
        cache.draw_all(draws).wf(),
        cache.draw_all(draws).round_robin == cache.round_robin,
        forall|item: Option<ItemId>| #[trigger]
            cache.draw_all(draws).caches(item) <==> cache.caches(item) || exists|i: int|
                0 <= i < draws.len() && #[trigger] draws[i].item == item,
        forall|i: int|
            0 <= i < draws.len() && (forall|j: int|
                i < j < draws.len() ==> #[trigger] draws[j].item != draws[i].item)
                ==> cache.draw_all(draws).lookup(#[trigger] draws[i].item, draws[i].key) is Some,
    decreases draws.len(),
{
    if draws.len() > 0 {
        let rest = draws.drop_last();
        let last = draws.last();
        law_small_scene_stays_cached(cache, scene, rest);
        let before = cache.draw_all(rest);
        let after = cache.draw_all(draws);
        assert forall|item: Option<ItemId>| before.caches(item) implies scene.contains(item) by {
            if !cache.caches(item) {
                let i = choose|i: int| 0 <= i < rest.len() && rest[i].item == item;
                assert(draws[i].item == item);
            }
        }
        assert(scene.contains(draws[draws.len() - 1].item));
        lemma_small_scene_never_evicts(before, scene, last.item);
        law_redraw_is_served(before, last);
        lemma_entry_tells_caches(after, last.item);
        assert(after.round_robin == before.round_robin);
        assert forall|item: Option<ItemId>| #[trigger]
            after.caches(item) <==> cache.caches(item) || exists|i: int|
                0 <= i < draws.len() && #[trigger] draws[i].item == item by {
            if item != last.item {
                law_draw_keeps_other_items(before, last, item);
                assert(after.caches(item) == before.caches(item));
                if exists|i: int| 0 <= i < rest.len() && rest[i].item == item {
                    let i = choose|i: int| 0 <= i < rest.len() && rest[i].item == item;
                    assert(draws[i].item == item);
                }
                if exists|i: int| 0 <= i < draws.len() && draws[i].item == item {
                    let i = choose|i: int| 0 <= i < draws.len() && draws[i].item == item;
                    assert(rest[i].item == item);
                }
            } else {
                assert(draws[draws.len() - 1].item == item);
            }
        }
        assert forall|i: int|
            0 <= i < draws.len() && (forall|j: int|
                i < j < draws.len() ==> #[trigger] draws[j].item != draws[i].item) implies
            after.lookup(#[trigger] draws[i].item, draws[i].key) is Some by {
            if i < draws.len() - 1 {
                assert(draws[draws.len() - 1].item != draws[i].item);
                law_draw_keeps_other_items(before, last, draws[i].item);
                assert forall|j: int| i < j < rest.len() implies #[trigger] rest[j].item
                    != rest[i].item by {
                    assert(draws[j].item != draws[i].item);
                }
                assert(before.lookup(rest[i].item, rest[i].key) is Some);
            }
        }
    }
}

/// The first `n` draws of a scene whose paragraphs are drawn in turn, over and
/// over.
pub open spec fn in_turn<S, L>(scene: Seq<EntryView<S, L>>, n: nat) -> Seq<EntryView<S, L>> {
    Seq::new(n, |k: int| scene[k % (scene.len() as int)])
}

/// Two positions that a cycle longer than their distance takes to the same
/// place are the same.
proof fn lemma_same_turn(d: int, n: int, len: int)
    requires
        0 <= d <= n,
        n - d < len,
        d % len == n % len,
    ensures
        d == n,
{
    vstd::arithmetic::div_mod::lemma_fundamental_div_mod(d, len);
    vstd::arithmetic::div_mod::lemma_fundamental_div_mod(n, len);
    let q = n / len - d / len;
    assert(n - d == len * q) by (nonlinear_arith)
        requires
            d == len * (d / len) + d % len,
            n == len * (n / len) + n % len,
            d % len == n % len,
            q == n / len - d / len,
    ;
    assert(q == 0) by (nonlinear_arith)
        requires
            0 <= n - d < len,
            n - d == len * q,
    ;
    assert(len * q == 0) by (nonlinear_arith)
        requires
            q == 0,
    ;
}

/// The slot that the draw number `d` of a scene with more items than slots goes
/// to.
spec fn turn(d: int) -> int {
    d % (SLOT_COUNT as int)
}

/// The latest of the first `n` draws that goes to slot `i`.
spec fn latest_turn(i: int, n: int) -> int {
    if n <= SLOT_COUNT {
        i
    } else {
        n - SLOT_COUNT + (i - n) % (SLOT_COUNT as int)
    }
}

proof fn lemma_latest_turn(i: int, n: int)
    requires
        0 <= i < SLOT_COUNT,
        i < n,
    ensures
        turn(latest_turn(i, n)) == i,
        0 <= latest_turn(i, n) < n,
        n - SLOT_COUNT <= latest_turn(i, n),
{
}

/// What a cache holds after `n` draws of a scene with more items than slots:
/// the paragraphs drawn last, each in the slot of its turn.
spec fn holds_turns<S, L>(cache: CacheView<S, L>, scene: Seq<EntryView<S, L>>, n: int) -> bool {
    &&& cache.wf()
    &&& cache.round_robin == if n <= SLOT_COUNT {
        0
    } else {
        turn(n)
    }
    &&& forall|d: int|
        0 <= d < n && n - SLOT_COUNT <= d ==> cache.slots[#[trigger] turn(d)] == Some(
            scene[d % (scene.len() as int)],
        )
    &&& forall|i: int| n <= i < SLOT_COUNT ==> #[trigger] cache.slots[i] is None
}

/// The items of the scene differ.
spec fn distinct_items<S, L>(scene: Seq<EntryView<S, L>>) -> bool {
    forall|i: int, j: int|
        0 <= i < j < scene.len() ==> (#[trigger] scene[i]).item != (#[trigger] scene[j]).item
}

/// The item whose turn is next has no entry any more.
proof fn lemma_next_is_absent<S, L>(
    cache: CacheView<S, L>,
    scene: Seq<EntryView<S, L>>,
    n: int,
)
    requires
        0 <= n,
        scene.len() > SLOT_COUNT,
        distinct_items(scene),
        holds_turns(cache, scene, n),
    ensures
        !cache.caches(scene[n % (scene.len() as int)].item),
{
    let len = scene.len() as int;
    let next = scene[n % len].item;
    assert forall|i: int| !cache.holds(i, next) by {
        if cache.holds(i, next) {
            assert(i < n);
            let d = latest_turn(i, n);
            lemma_latest_turn(i, n);
            assert(cache.slots[turn(d)] == Some(scene[d % len]));
            vstd::arithmetic::div_mod::lemma_mod_bound(d, len);
            vstd::arithmetic::div_mod::lemma_mod_bound(n, len);
            if d % len < n % len {
                assert(scene[d % len].item != scene[n % len].item);
            } else if n % len < d % len {
                assert(scene[n % len].item != scene[d % len].item);
            } else {
                lemma_same_turn(d, n, len);
            }
        }
    }
}

/// A store of the item whose turn is next goes to the slot of its turn.
proof fn lemma_next_target<S, L>(cache: CacheView<S, L>, scene: Seq<EntryView<S, L>>, n: int)
    requires
        0 <= n,
        scene.len() > SLOT_COUNT,
        distinct_items(scene),
        holds_turns(cache, scene, n),
    ensures
        cache.target(scene[n % (scene.len() as int)].item) == turn(n),
        cache.full() <==> SLOT_COUNT <= n,
{
    let item = scene[n % (scene.len() as int)].item;
    lemma_next_is_absent(cache, scene, n);
    assert forall|i: int| i < n implies !#[trigger] cache.vacant(i) by {
        if 0 <= i < SLOT_COUNT {
            let d = latest_turn(i, n);
            lemma_latest_turn(i, n);
            assert(cache.slots[turn(d)] is Some);
        }
    }
    if n < SLOT_COUNT {
        assert(cache.vacant(n));
        assert(cache.first_vacant(n));
        lemma_first_vacant(cache, n, item);
    }
}

proof fn lemma_turns_step<S, L>(cache: CacheView<S, L>, scene: Seq<EntryView<S, L>>, n: int)
    requires
        0 <= n,
        scene.len() > SLOT_COUNT,
        distinct_items(scene),
        holds_turns(cache, scene, n),
    ensures
        holds_turns(cache.draw(scene[n % (scene.len() as int)]), scene, n + 1),
{
    let len = scene.len() as int;
    let drawn = scene[n % len];
    let after = cache.draw(drawn);
    lemma_next_is_absent(cache, scene, n);
    lemma_next_target(cache, scene, n);
    lemma_store_wf(cache, drawn);
    assert(after == cache.store(drawn));
    assert forall|d: int| 0 <= d < n + 1 && n + 1 - SLOT_COUNT <= d implies after.slots[
    #[trigger] turn(d)] == Some(scene[d % len]) by {
        if d < n {
            assert(turn(d) != turn(n));
        }
    }
}

proof fn lemma_large_scene<S, L>(scene: Seq<EntryView<S, L>>, n: nat)
    requires
        scene.len() > SLOT_COUNT,
        distinct_items(scene),
    ensures
        holds_turns(CacheView::empty().draw_all(in_turn(scene, n)), scene, n as int),
    decreases n,
{
    if n > 0 {
        let m = (n - 1) as nat;
        lemma_large_scene(scene, m);
        assert(in_turn(scene, n).drop_last() =~= in_turn(scene, m));
        lemma_turns_step(CacheView::empty().draw_all(in_turn(scene, m)), scene, m as int);
    }
}

/// A scene that draws more items in turn than there are slots finds none of
/// them in the cache, however often it is drawn: each draw lays out anew.
pub proof fn law_large_scene_is_never_served<S, L>(scene: Seq<EntryView<S, L>>, n: nat)
    requires
        scene.len() > SLOT_COUNT,
        forall|i: int, j: int|
            0 <= i < j < scene.len() ==> (#[trigger] scene[i]).item != (#[trigger] scene[j]).item,
    ensures
        ({
            let cache = CacheView::empty().draw_all(in_turn(scene, n));
            let next = scene[n as int % (scene.len() as int)];
            &&& cache.wf()
            &&& cache.lookup(next.item, next.key) is None
            &&& cache.served(next) == next.layout
        }),
{
    lemma_large_scene(scene, n);
    lemma_next_is_absent(CacheView::empty().draw_all(in_turn(scene, n)), scene, n as int);
}

} // verus!
