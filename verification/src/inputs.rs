//! What each operation owes its inputs, stated over the fields of paragraphs,
//! keys, entries and slots, and over the calls that the closures receive.
use crate::cache::{
    diff_accepts, diff_returns, run_accepts, run_returns, same_color, shapes, TextLayoutCache,
};
use crate::key::{CacheKey, KeyView};
use crate::model::{
    lemma_first_vacant, lemma_recolor_wf, lemma_slot_of, lemma_store_wf, CacheView, EntryView,
    ItemId, LayoutView, SLOT_COUNT,
};
use crate::paragraph::{PhysicalLength, PhysicalRect, TextParagraphLayout};
use i_slint_core::Brush;
use vstd::prelude::*;
use vstd::std_specs::cmp::PartialEqSpec;

verus! {

// Keys
/// Each part of the key is the input of its name, whatever the other inputs are.
pub proof fn law_key_holds_each_input(font: Seq<u8>, paragraph: TextParagraphLayout<'_>)
    ensures
        KeyView::of(font, paragraph).string == vstd::utf8::encode_utf8(paragraph.string@),
        vstd::utf8::decode_utf8(KeyView::of(font, paragraph).string) == paragraph.string@,
        KeyView::of(font, paragraph).font == font,
        KeyView::of(font, paragraph).letter_spacing == paragraph.layout.letter_spacing,
        KeyView::of(font, paragraph).line_height == paragraph.layout.line_height,
        KeyView::of(font, paragraph).max_width == paragraph.max_width,
        KeyView::of(font, paragraph).max_height == paragraph.max_height,
        KeyView::of(font, paragraph).horizontal_alignment == paragraph.horizontal_alignment,
        KeyView::of(font, paragraph).vertical_alignment == paragraph.vertical_alignment,
        KeyView::of(font, paragraph).wrap == paragraph.wrap,
        KeyView::of(font, paragraph).overflow == paragraph.overflow,
        KeyView::of(font, paragraph).max_lines == paragraph.max_lines,
        KeyView::of(font, paragraph).single_line == paragraph.single_line,
{
    vstd::utf8::encode_utf8_decode_utf8(paragraph.string@);
}

/// Two keys match except for the string exactly if every other field is equal.
pub proof fn law_matches_except_string_field_by_field(a: KeyView, b: KeyView)
    ensures
        a.matches_except_string(b) <==> {
            &&& a.font == b.font
            &&& a.letter_spacing == b.letter_spacing
            &&& a.line_height == b.line_height
            &&& a.max_width == b.max_width
            &&& a.max_height == b.max_height
            &&& a.horizontal_alignment == b.horizontal_alignment
            &&& a.vertical_alignment == b.vertical_alignment
            &&& a.wrap == b.wrap
            &&& a.overflow == b.overflow
            &&& a.max_lines == b.max_lines
            &&& a.single_line == b.single_line
        },
{
}

/// The strings take no part in that comparison: replacing either of them, by a
/// string of any content and length, changes nothing.
pub proof fn law_strings_take_no_part(a: KeyView, b: KeyView, s: Seq<u8>, t: Seq<u8>)
    ensures
        (KeyView { string: s, ..a }).matches_except_string(KeyView { string: t, ..b })
            == a.matches_except_string(b),
        (KeyView { string: s, ..a }).matches_except_string(KeyView { string: t, ..a }),
{
}

/// The inputs besides the text and the font agree.
pub open spec fn same_options(a: TextParagraphLayout<'_>, b: TextParagraphLayout<'_>) -> bool {
    &&& a.layout.letter_spacing == b.layout.letter_spacing
    &&& a.layout.line_height == b.layout.line_height
    &&& a.max_width == b.max_width
    &&& a.max_height == b.max_height
    &&& a.horizontal_alignment == b.horizontal_alignment
    &&& a.vertical_alignment == b.vertical_alignment
    &&& a.wrap == b.wrap
    &&& a.overflow == b.overflow
    &&& a.max_lines == b.max_lines
    &&& a.single_line == b.single_line
}

/// Having the same options is agreement on each option: it forces every field
/// but the text to be the same, and replacing the text never breaks it.
pub proof fn law_same_options_leave_only_the_text(
    a: TextParagraphLayout<'_>,
    b: TextParagraphLayout<'_>,
)
    ensures
        same_options(a, b) <==> a == (TextParagraphLayout { string: a.string, ..b }),
{
}

/// Two paragraphs have keys that match except for the string exactly if they
/// are set in the same font with the same options, whatever their texts; and
/// they have one key exactly if their texts are the same too.
pub proof fn law_keys_compare_as_their_inputs(
    font1: Seq<u8>,
    p1: TextParagraphLayout<'_>,
    font2: Seq<u8>,
    p2: TextParagraphLayout<'_>,
)
    ensures
        KeyView::of(font1, p1).matches_except_string(KeyView::of(font2, p2)) <==> font1 == font2
            && same_options(p1, p2),
        KeyView::of(font1, p1) == KeyView::of(font2, p2) <==> font1 == font2 && same_options(p1, p2)
            && p1.string@ == p2.string@,
        KeyView::of(font1, p1).string == KeyView::of(font2, p2).string <==> p1.string@
            == p2.string@,
{
    vstd::utf8::encode_utf8_decode_utf8(p1.string@);
    vstd::utf8::encode_utf8_decode_utf8(p2.string@);
}

/// Executable keys are equal exactly if each field of their values is.
pub proof fn law_key_equality_is_field_by_field(a: CacheKey, b: CacheKey)
    ensures
        a.eq_spec(&b) <==> {
            &&& a@.string == b@.string
            &&& a@.font == b@.font
            &&& a@.letter_spacing == b@.letter_spacing
            &&& a@.line_height == b@.line_height
            &&& a@.max_width == b@.max_width
            &&& a@.max_height == b@.max_height
            &&& a@.horizontal_alignment == b@.horizontal_alignment
            &&& a@.vertical_alignment == b@.vertical_alignment
            &&& a@.wrap == b@.wrap
            &&& a@.overflow == b@.overflow
            &&& a@.max_lines == b@.max_lines
            &&& a@.single_line == b@.single_line
        },
        <CacheKey as PartialEqSpec>::obeys_eq_spec(),
{
}

/// Two keys that were made from paragraphs compare as their inputs do: equal
/// exactly if the font, the text and every option are the same, and matching
/// except for the string exactly if the font and every option are.
pub proof fn law_made_keys_compare_as_their_inputs(
    font1: &[u8],
    p1: &TextParagraphLayout<'_>,
    key1: CacheKey,
    font2: &[u8],
    p2: &TextParagraphLayout<'_>,
    key2: CacheKey,
    same: bool,
    matches: bool,
)
    requires
        call_ensures(CacheKey::new, (font1, p1), key1),
        call_ensures(CacheKey::new, (font2, p2), key2),
        call_ensures(CacheKey::eq, (&key1, &key2), same),
        call_ensures(CacheKey::matches_except_string, (&key1, &key2), matches),
    ensures
        same <==> font1@ == font2@ && same_options(*p1, *p2) && p1.string@ == p2.string@,
        matches <==> font1@ == font2@ && same_options(*p1, *p2),
{
    law_keys_compare_as_their_inputs(font1@, *p1, font2@, *p2);
}

// What the closures are handed
/// A layout counts as computed for a paragraph exactly if the closure may
/// return its shape buffer together with all of its lines, in order.
pub proof fn law_shaped_layout_is_the_whole_output<
    S,
    L,
    Shape: FnOnce(&TextParagraphLayout<'_>) -> (S, Vec<L>),
>(shape: Shape, paragraph: TextParagraphLayout<'_>, layout: LayoutView<S, L>)
    ensures
        shapes(shape, paragraph, layout) <==> exists|out: (S, Vec<L>)|
            {
                &&& #[trigger] call_ensures(shape, (&paragraph,), out)
                &&& layout.shape_buffer == out.0
                &&& layout.lines.len() == out.1@.len()
                &&& forall|i: int| 0 <= i < out.1@.len() ==> layout.lines[i] == out.1@[i]
            },
{
    if exists|out: (S, Vec<L>)|
        {
            &&& #[trigger] call_ensures(shape, (&paragraph,), out)
            &&& layout.shape_buffer == out.0
            &&& layout.lines.len() == out.1@.len()
            &&& forall|i: int| 0 <= i < out.1@.len() ==> layout.lines[i] == out.1@[i]
        } {
        let out = choose|out: (S, Vec<L>)|
            {
                &&& #[trigger] call_ensures(shape, (&paragraph,), out)
                &&& layout.shape_buffer == out.0
                &&& layout.lines.len() == out.1@.len()
                &&& forall|i: int| 0 <= i < out.1@.len() ==> layout.lines[i] == out.1@[i]
            };
        assert(layout.lines =~= out.1@);
        assert(call_ensures(shape, (&paragraph,), out));
    }
}

/// What is computed for a paragraph is computed from that paragraph: a closure
/// that gives `buffer` and `lines` for it, and nothing else, makes exactly that
/// one layout.
pub proof fn law_determined_output_is_the_only_layout<
    S,
    L,
    Shape: FnOnce(&TextParagraphLayout<'_>) -> (S, Vec<L>),
>(
    shape: Shape,
    paragraph: TextParagraphLayout<'_>,
    buffer: S,
    lines: Seq<L>,
    layout: LayoutView<S, L>,
)
    requires
        forall|out: (S, Vec<L>)| #[trigger]
            call_ensures(shape, (&paragraph,), out) ==> out.0 == buffer && out.1@ == lines,
        shapes(shape, paragraph, layout),
    ensures
        layout.shape_buffer == buffer,
        layout.lines == lines,
{
    law_shaped_layout_is_the_whole_output(shape, paragraph, layout);
    let out = choose|out: (S, Vec<L>)|
        {
            &&& #[trigger] call_ensures(shape, (&paragraph,), out)
            &&& layout.shape_buffer == out.0
            &&& layout.lines.len() == out.1@.len()
            &&& forall|i: int| 0 <= i < out.1@.len() ==> layout.lines[i] == out.1@[i]
        };
    assert(layout.lines =~= out.1@);
}

/// The draw works on the layout's shape buffer and on all of its lines: its
/// result is one that `run` may return for them, and they are all that `run` has
/// to accept.
pub proof fn law_run_works_on_the_whole_layout<S, L, T, Run: FnOnce(&S, &[L]) -> T>(
    run: Run,
    layout: LayoutView<S, L>,
    result: T,
)
    ensures
        run_returns(run, layout, result) <==> exists|lines: &[L]|
            {
                &&& #[trigger] call_ensures(run, (&layout.shape_buffer, lines), result)
                &&& lines@ == layout.lines
            },
        run_accepts(run, layout) <==> forall|lines: &[L]|
            lines@ == layout.lines ==> #[trigger] call_requires(
                run,
                (&layout.shape_buffer, lines),
            ),
{
}

/// A draw that reports the shape buffer and the lines it was given reports those
/// of the layout, with no line missing, added or moved.
pub proof fn law_run_reports_the_whole_layout<S, L, T, Run: FnOnce(&S, &[L]) -> T>(
    run: Run,
    layout: LayoutView<S, L>,
    result: T,
    report: spec_fn(S, Seq<L>) -> T,
)
    requires
        forall|s: &S, lines: &[L], r: T| #[trigger]
            call_ensures(run, (s, lines), r) ==> r == report(*s, lines@),
        run_returns(run, layout, result),
    ensures
        result == report(layout.shape_buffer, layout.lines),
{
}

/// The diff works on the whole previous and the whole fresh layout, also where
/// they differ in their number of lines, and in that order.
pub proof fn law_diff_works_on_both_whole_layouts<
    S,
    L,
    T,
    Diff: FnOnce(&S, &[L], &S, &[L]) -> T,
>(diff: Diff, previous: LayoutView<S, L>, fresh: LayoutView<S, L>, region: T)
    ensures
        diff_returns(diff, previous, fresh, region) <==> exists|
            old_lines: &[L],
            new_lines: &[L],
        |
            {
                &&& #[trigger] call_ensures(
                    diff,
                    (&previous.shape_buffer, old_lines, &fresh.shape_buffer, new_lines),
                    region,
                )
                &&& old_lines@ == previous.lines
                &&& new_lines@ == fresh.lines
            },
        diff_accepts(diff, previous, fresh) <==> forall|old_lines: &[L], new_lines: &[L]|
            old_lines@ == previous.lines && new_lines@ == fresh.lines
                ==> #[trigger] call_requires(
                diff,
                (&previous.shape_buffer, old_lines, &fresh.shape_buffer, new_lines),
            ),
{
}

/// A diff that reports what it was given reports both layouts in full.
pub proof fn law_diff_reports_both_whole_layouts<
    S,
    L,
    T,
    Diff: FnOnce(&S, &[L], &S, &[L]) -> T,
>(
    diff: Diff,
    previous: LayoutView<S, L>,
    fresh: LayoutView<S, L>,
    region: T,
    report: spec_fn(S, Seq<L>, S, Seq<L>) -> T,
)
    requires
        forall|s: &S, k: &[L], t: &S, l: &[L], r: T| #[trigger]
            call_ensures(diff, (s, k, t, l), r) ==> r == report(*s, k@, *t, l@),
        diff_returns(diff, previous, fresh, region),
    ensures
        region == report(
            previous.shape_buffer,
            previous.lines,
            fresh.shape_buffer,
            fresh.lines,
        ),
{
}

// Slots
/// A cache is well formed exactly if it has its twenty-four slots, its
/// round-robin points at one of them, and two slots never hold the same item.
pub proof fn law_well_formed_is_bounded_and_unique<S, L>(cache: CacheView<S, L>)
    ensures
        SLOT_COUNT == 24,
        cache.wf() <==> {
            &&& cache.slots.len() == 24
            &&& 0 <= cache.round_robin < 24
            &&& forall|i: int, j: int|
                0 <= i < j < cache.slots.len() && (#[trigger] cache.slots[i]) is Some && (
                #[trigger] cache.slots[j]) is Some ==> cache.slots[i]->0.item
                    != cache.slots[j]->0.item
        },
{
    if cache.wf() {
        assert forall|i: int, j: int|
            0 <= i < j < cache.slots.len() && (#[trigger] cache.slots[i]) is Some && (
            #[trigger] cache.slots[j]) is Some implies cache.slots[i]->0.item
            != cache.slots[j]->0.item by {
            assert(cache.holds(i, cache.slots[i]->0.item));
            assert(cache.holds(j, cache.slots[j]->0.item));
        }
    } else if cache.slots.len() == 24 && 0 <= cache.round_robin < 24 {
        let (i, j, item) = choose|i: int, j: int, item: Option<ItemId>|
            #[trigger] cache.holds(i, item) && #[trigger] cache.holds(j, item) && i != j;
        assert(cache.slots[i] is Some && cache.slots[j] is Some);
        if i < j {
            assert(cache.slots[i]->0.item == cache.slots[j]->0.item);
        } else {
            assert(cache.slots[j]->0.item == cache.slots[i]->0.item);
        }
    }
}

/// A new cache has twenty-four vacant slots, starts its round-robin at the
/// first, and answers no lookup.
pub proof fn law_new_cache_is_vacant<S, L>(item: Option<ItemId>, key: KeyView)
    ensures
        CacheView::<S, L>::empty().slots.len() == 24,
        forall|i: int| 0 <= i < 24 ==> (#[trigger] CacheView::<S, L>::empty().slots[i]) is None,
        CacheView::<S, L>::empty().round_robin == 0,
        CacheView::<S, L>::empty().lookup(item, key) is None,
        CacheView::<S, L>::empty().entry_of(item) is None,
{
    assert(!CacheView::<S, L>::empty().caches(item));
}

/// The entry of an item is the one in the slot that holds that very item, and
/// an item that no slot holds has none.
pub proof fn law_entry_is_the_items_own<S, L>(cache: CacheView<S, L>, item: Option<ItemId>)
    requires
        cache.wf(),
    ensures
        forall|i: int|
            0 <= i < cache.slots.len() && (#[trigger] cache.slots[i]) is Some
                && cache.slots[i]->0.item == item ==> cache.entry_of(item) == cache.slots[i]
                && cache.slot_of(item) == Some(i),
        cache.entry_of(item) is Some ==> cache.entry_of(item)->0.item == item
            && cache.slots.contains(cache.entry_of(item)),
        cache.entry_of(item) is None ==> cache.slot_of(item) is None && forall|i: int|
            0 <= i < cache.slots.len() && (#[trigger] cache.slots[i]) is Some
                ==> cache.slots[i]->0.item != item,
{
    assert forall|i: int|
        0 <= i < cache.slots.len() && (#[trigger] cache.slots[i]) is Some && cache.slots[i]->0.item
            == item implies cache.entry_of(item) == cache.slots[i] && cache.slot_of(item) == Some(
        i,
    ) by {
        assert(cache.holds(i, item));
        lemma_slot_of(cache, i, item);
    }
    if cache.caches(item) {
        let i = choose|i: int| cache.holds(i, item);
        lemma_slot_of(cache, i, item);
        assert(cache.slots[i] == cache.entry_of(item));
    }
}

/// A lookup is served exactly the layout of a slot that holds the same item
/// under the same key.
pub proof fn law_lookup_is_served_from_a_matching_slot<S, L>(
    cache: CacheView<S, L>,
    item: Option<ItemId>,
    key: KeyView,
    layout: LayoutView<S, L>,
)
    requires
        cache.wf(),
    ensures
        cache.lookup(item, key) == Some(layout) <==> exists|i: int|
            {
                &&& 0 <= i < cache.slots.len()
                &&& (#[trigger] cache.slots[i]) is Some
                &&& cache.slots[i]->0.item == item
                &&& cache.slots[i]->0.key == key
                &&& cache.slots[i]->0.layout == layout
            },
{
    law_entry_is_the_items_own(cache, item);
    if cache.lookup(item, key) == Some(layout) {
        let i = cache.slots.index_of(cache.entry_of(item));
        assert(cache.slots[i] is Some);
    }
}

/// A store goes to the slot of the item's previous entry where there is one,
/// else to the first vacant slot, else to the round-robin slot; only in the last
/// case does the round-robin move, by one slot, from the last to the first. No
/// other slot changes.
pub proof fn law_store_takes_the_right_slot<S, L>(
    cache: CacheView<S, L>,
    entry: EntryView<S, L>,
    t: int,
)
    requires
        cache.wf(),
        0 <= t < cache.slots.len(),
    ensures
        cache.slots[t] is Some && cache.slots[t]->0.item == entry.item ==> {
            &&& cache.store(entry).slots == cache.slots.update(t, Some(entry))
            &&& cache.store(entry).round_robin == cache.round_robin
        },
        (forall|i: int|
            0 <= i < cache.slots.len() && (#[trigger] cache.slots[i]) is Some
                ==> cache.slots[i]->0.item != entry.item) && cache.slots[t] is None && (forall|
            i: int,
        |
            0 <= i < t ==> (#[trigger] cache.slots[i]) is Some) ==> {
            &&& cache.store(entry).slots == cache.slots.update(t, Some(entry))
            &&& cache.store(entry).round_robin == cache.round_robin
        },
        (forall|i: int|
            0 <= i < cache.slots.len() ==> (#[trigger] cache.slots[i]) is Some
                && cache.slots[i]->0.item != entry.item) ==> {
            &&& cache.store(entry).slots == cache.slots.update(cache.round_robin, Some(entry))
            &&& cache.store(entry).round_robin == if cache.round_robin == 23 {
                0
            } else {
                cache.round_robin + 1
            }
        },
{
    if cache.slots[t] is Some && cache.slots[t]->0.item == entry.item {
        assert(cache.holds(t, entry.item));
        lemma_slot_of(cache, t, entry.item);
    }
    if (forall|i: int|
        0 <= i < cache.slots.len() && (#[trigger] cache.slots[i]) is Some
            ==> cache.slots[i]->0.item != entry.item) {
        assert(!cache.caches(entry.item));
        if cache.slots[t] is None && (forall|i: int|
            0 <= i < t ==> (#[trigger] cache.slots[i]) is Some) {
            assert(cache.vacant(t));
            assert(cache.first_vacant(t));
            lemma_first_vacant(cache, t, entry.item);
        }
    }
    if (forall|i: int|
        0 <= i < cache.slots.len() ==> (#[trigger] cache.slots[i]) is Some && cache.slots[i]->0.item
            != entry.item) {
        assert(!cache.caches(entry.item));
        assert(cache.full());
    }
}

/// Drawing a cached item in another color changes the color of its entry and
/// nothing else: not the item, the key or the layout, no other slot, and not the
/// round-robin.
pub proof fn law_recolor_changes_one_color<S, L>(
    cache: CacheView<S, L>,
    item: Option<ItemId>,
    color: Brush,
    t: int,
)
    requires
        cache.wf(),
        0 <= t < cache.slots.len(),
        cache.slots[t] is Some,
        cache.slots[t]->0.item == item,
    ensures
        cache.recolor(item, color).slots.len() == cache.slots.len(),
        cache.recolor(item, color).round_robin == cache.round_robin,
        cache.recolor(item, color).slots[t] is Some,
        cache.recolor(item, color).slots[t]->0.item == item,
        cache.recolor(item, color).slots[t]->0.key == cache.slots[t]->0.key,
        cache.recolor(item, color).slots[t]->0.color == color,
        cache.recolor(item, color).slots[t]->0.layout == cache.slots[t]->0.layout,
        forall|i: int|
            0 <= i < cache.slots.len() && i != t ==> (#[trigger] cache.recolor(
                item,
                color,
            ).slots[i]) == cache.slots[i],
{
    assert(cache.holds(t, item));
    lemma_slot_of(cache, t, item);
}

/// Evicting an item vacates the slot that holds exactly that item, and changes
/// no other slot, nor the round-robin.
pub proof fn law_evict_item_vacates_its_slot<S, L>(cache: CacheView<S, L>, item: ItemId, i: int)
    requires
        0 <= i < cache.slots.len(),
    ensures
        cache.evict_item(item).slots.len() == cache.slots.len(),
        cache.evict_item(item).round_robin == cache.round_robin,
        cache.slots[i] is Some && cache.slots[i]->0.item == Some(item) ==> cache.evict_item(
            item,
        ).slots[i] is None,
        !(cache.slots[i] is Some && cache.slots[i]->0.item == Some(item)) ==> cache.evict_item(
            item,
        ).slots[i] == cache.slots[i],
{
}

/// Evicting a tree vacates the slots that hold an item with the address of that
/// tree, whatever its index, and changes no other slot, nor the round-robin.
pub proof fn law_evict_tree_vacates_its_slots<S, L>(cache: CacheView<S, L>, tree: usize, i: int)
    requires
        0 <= i < cache.slots.len(),
    ensures
        cache.evict_tree(tree).slots.len() == cache.slots.len(),
        cache.evict_tree(tree).round_robin == cache.round_robin,
        forall|index: u32|
            cache.slots[i] is Some && cache.slots[i]->0.item == Some((tree, index))
                ==> cache.evict_tree(tree).slots[i] is None,
        (cache.slots[i] is None || cache.slots[i]->0.item is None
            || (cache.slots[i]->0.item->0).0 != tree) ==> cache.evict_tree(tree).slots[i]
            == cache.slots[i],
{
}

// Brushes
/// The color check is about the item's own entry: it compares the brush recorded
/// there, and an item without an entry matches no brush.
pub proof fn law_color_check_is_about_the_items_entry<S, L>(
    cache: CacheView<S, L>,
    item: ItemId,
    color: Brush,
)
    requires
        cache.wf(),
    ensures
        forall|i: int|
            0 <= i < cache.slots.len() && (#[trigger] cache.slots[i]) is Some
                && cache.slots[i]->0.item == Some(item) ==> (same_color(cache, item, color)
                <==> cache.slots[i]->0.color.eq_spec(&color)),
        (forall|i: int|
            0 <= i < cache.slots.len() && (#[trigger] cache.slots[i]) is Some
                ==> cache.slots[i]->0.item != Some(item)) ==> !same_color(cache, item, color),
{
    law_entry_is_the_items_own(cache, Some(item));
    if cache.entry_of(Some(item)) is Some {
        let i = cache.slots.index_of(cache.entry_of(Some(item)));
        assert(cache.slots[i] is Some);
    }
}

/// Whatever other items hold, the color check of an item goes by the brush that
/// its own paragraph was last stored or drawn with; and storing or drawing
/// another item changes it only by evicting the item's entry.
pub proof fn law_color_check_follows_the_last_draw<S, L>(
    cache: CacheView<S, L>,
    item: ItemId,
    entry: EntryView<S, L>,
    other: Option<ItemId>,
    brush: Brush,
    color: Brush,
)
    requires
        cache.wf(),
    ensures
        entry.item == Some(item) ==> (same_color(cache.store(entry), item, color)
            <==> entry.color.eq_spec(&color)),
        entry.item != Some(item) && !cache.evicts_for(entry.item) ==> same_color(
            cache.store(entry),
            item,
            color,
        ) == same_color(cache, item, color),
        cache.caches(Some(item)) ==> (same_color(cache.recolor(Some(item), brush), item, color)
            <==> brush.eq_spec(&color)),
        cache.caches(other) && other != Some(item) ==> same_color(
            cache.recolor(other, brush),
            item,
            color,
        ) == same_color(cache, item, color),
{
    lemma_store_wf(cache, entry);
    if entry.item != Some(item) {
        crate::laws::law_store_keeps_other_items(cache, entry, Some(item));
    }
    if cache.caches(Some(item)) {
        lemma_recolor_wf(cache, Some(item), brush);
    }
    if cache.caches(other) && other != Some(item) {
        lemma_recolor_wf(cache, other, brush);
        let after = cache.recolor(other, brush);
        let t = choose|i: int| cache.holds(i, other);
        lemma_slot_of(cache, t, other);
        if cache.caches(Some(item)) {
            let i = choose|i: int| cache.holds(i, Some(item));
            lemma_slot_of(cache, i, Some(item));
            assert(after.holds(i, Some(item)));
            lemma_slot_of(after, i, Some(item));
        } else {
            assert forall|i: int| !after.holds(i, Some(item)) by {
                assert(after.holds(i, Some(item)) <==> cache.holds(i, Some(item)));
            }
        }
    }
}

// Two calls in a row
/// After a paragraph of an item was stored, a draw of that item is served that
/// layout exactly if the font, the text and every option are the same. The
/// brushes do not matter.
pub proof fn law_draw_after_draw<S, L>(
    cache: CacheView<S, L>,
    item: Option<ItemId>,
    font1: Seq<u8>,
    p1: TextParagraphLayout<'_>,
    color: Brush,
    layout: LayoutView<S, L>,
    font2: Seq<u8>,
    p2: TextParagraphLayout<'_>,
)
    requires
        cache.wf(),
    ensures
        cache.store(
            EntryView { item, key: KeyView::of(font1, p1), color, layout },
        ).lookup(item, KeyView::of(font2, p2)) == if font1 == font2 && same_options(p1, p2)
            && p1.string@ == p2.string@ {
            Some(layout)
        } else {
            None
        },
{
    lemma_store_wf(cache, EntryView { item, key: KeyView::of(font1, p1), color, layout });
    law_keys_compare_as_their_inputs(font1, p1, font2, p2);
}

/// After a paragraph of an item was stored, a change of that item is diffed
/// against that layout exactly if the text differs, and the font, every option
/// and the brush do not.
pub proof fn law_change_after_draw<S, L>(
    cache: CacheView<S, L>,
    item: ItemId,
    font1: Seq<u8>,
    p1: TextParagraphLayout<'_>,
    color1: Brush,
    layout: LayoutView<S, L>,
    font2: Seq<u8>,
    p2: TextParagraphLayout<'_>,
    color2: Brush,
)
    requires
        cache.wf(),
    ensures
        ({
            let after = cache.store(
                EntryView { item: Some(item), key: KeyView::of(font1, p1), color: color1, layout },
            );
            after.diff_base(item, KeyView::of(font2, p2), same_color(after, item, color2)) == if {
                &&& color1.eq_spec(&color2)
                &&& font1 == font2
                &&& same_options(p1, p2)
                &&& p1.string@ != p2.string@
            } {
                Some(layout)
            } else {
                None
            }
        }),
{
    lemma_store_wf(
        cache,
        EntryView { item: Some(item), key: KeyView::of(font1, p1), color: color1, layout },
    );
    law_keys_compare_as_their_inputs(font1, p1, font2, p2);
}

/// In any state, what a change is diffed against is the layout in the slot of
/// that very item, exactly if its brush and every field of its key but the
/// string agree with the change; an item in no slot is never diffed.
pub proof fn law_change_is_diffed_against_the_items_slot<S, L>(
    cache: CacheView<S, L>,
    item: ItemId,
    font: Seq<u8>,
    p: TextParagraphLayout<'_>,
    color: Brush,
)
    requires
        cache.wf(),
    ensures
        forall|i: int|
            0 <= i < cache.slots.len() && (#[trigger] cache.slots[i]) is Some
                && cache.slots[i]->0.item == Some(item) ==> cache.diff_base(
                item,
                KeyView::of(font, p),
                same_color(cache, item, color),
            ) == ({
                let entry = cache.slots[i]->0;
                if {
                    &&& entry.color.eq_spec(&color)
                    &&& entry.key.string != vstd::utf8::encode_utf8(p.string@)
                    &&& entry.key.font == font
                    &&& entry.key.letter_spacing == p.layout.letter_spacing
                    &&& entry.key.line_height == p.layout.line_height
                    &&& entry.key.max_width == p.max_width
                    &&& entry.key.max_height == p.max_height
                    &&& entry.key.horizontal_alignment == p.horizontal_alignment
                    &&& entry.key.vertical_alignment == p.vertical_alignment
                    &&& entry.key.wrap == p.wrap
                    &&& entry.key.overflow == p.overflow
                    &&& entry.key.max_lines == p.max_lines
                    &&& entry.key.single_line == p.single_line
                } {
                    Some(entry.layout)
                } else {
                    None
                }
            }),
        (forall|i: int|
            0 <= i < cache.slots.len() && (#[trigger] cache.slots[i]) is Some
                ==> cache.slots[i]->0.item != Some(item)) ==> cache.diff_base(
            item,
            KeyView::of(font, p),
            same_color(cache, item, color),
        ) is None,
{
    law_entry_is_the_items_own(cache, Some(item));
    law_color_check_is_about_the_items_entry(cache, item, color);
    if cache.entry_of(Some(item)) is Some {
        let i = cache.slots.index_of(cache.entry_of(Some(item)));
        assert(cache.slots[i] is Some);
        law_matches_except_string_field_by_field(cache.slots[i]->0.key, KeyView::of(font, p));
    }
}

/// With the comparison of the brushes supplied, the outcome depends on it alone
/// and not on the brushes: without it nothing is diffed, and with it everything
/// that only the string sets apart.
pub proof fn law_supplied_color_check_decides<S, L>(
    cache: CacheView<S, L>,
    item: ItemId,
    key: KeyView,
    i: int,
)
    requires
        cache.wf(),
        0 <= i < cache.slots.len(),
        cache.slots[i] is Some,
        cache.slots[i]->0.item == Some(item),
    ensures
        cache.diff_base(item, key, false) is None,
        cache.diff_base(item, key, true) == if cache.slots[i]->0.key.string != key.string
            && cache.slots[i]->0.key == (KeyView { string: cache.slots[i]->0.key.string, ..key }) {
            Some(cache.slots[i]->0.layout)
        } else {
            None
        },
{
    law_entry_is_the_items_own(cache, Some(item));
}

/// A missed draw of a paragraph that shapes to `buffer` and `lines` draws that
/// buffer with all of those lines, and a redraw of the same text, font and
/// options, in whatever color, draws all of them again.
pub proof fn law_draw_and_redraw_report_all_lines<
    S,
    L,
    T,
    Shape: FnOnce(&TextParagraphLayout<'_>) -> (S, Vec<L>),
    Run: FnOnce(&S, &[L]) -> T,
>(
    cache: CacheView<S, L>,
    item: Option<ItemId>,
    font: Seq<u8>,
    p: TextParagraphLayout<'_>,
    q: TextParagraphLayout<'_>,
    color: Brush,
    shape: Shape,
    buffer: S,
    lines: Seq<L>,
    run: Run,
    report: spec_fn(S, Seq<L>) -> T,
    layout: LayoutView<S, L>,
    first: T,
    again: T,
)
    requires
        cache.wf(),
        forall|out: (S, Vec<L>)| #[trigger]
            call_ensures(shape, (&p,), out) ==> out.0 == buffer && out.1@ == lines,
        forall|s: &S, l: &[L], r: T| #[trigger]
            call_ensures(run, (s, l), r) ==> r == report(*s, l@),
        p.string@ == q.string@,
        same_options(p, q),
        shapes(shape, p, layout),
        run_returns(run, layout, first),
        ({
            let after = cache.store(EntryView { item, key: KeyView::of(font, p), color, layout });
            after.lookup(item, KeyView::of(font, q)) matches Some(served) ==> run_returns(
                run,
                served,
                again,
            )
        }),
    ensures
        first == report(buffer, lines),
        again == report(buffer, lines),
{
    law_determined_output_is_the_only_layout(shape, p, buffer, lines, layout);
    law_run_reports_the_whole_layout(run, layout, first, report);
    law_draw_after_draw(cache, item, font, p, color, layout, font, q);
    law_run_reports_the_whole_layout(run, layout, again, report);
}

/// A change of the text alone, from a paragraph that was drawn with
/// `previous`, to one that shapes to `buffer` and `lines`, diffs all of the one
/// against all of the other.
pub proof fn law_change_reports_all_lines<
    S,
    L,
    T,
    Shape: FnOnce(&TextParagraphLayout<'_>) -> (S, Vec<L>),
    Diff: FnOnce(&S, &[L], &S, &[L]) -> T,
>(
    cache: CacheView<S, L>,
    item: ItemId,
    font: Seq<u8>,
    p: TextParagraphLayout<'_>,
    q: TextParagraphLayout<'_>,
    color1: Brush,
    color2: Brush,
    previous: LayoutView<S, L>,
    shape: Shape,
    buffer: S,
    lines: Seq<L>,
    diff: Diff,
    report: spec_fn(S, Seq<L>, S, Seq<L>) -> T,
    fresh: LayoutView<S, L>,
    region: T,
)
    requires
        cache.wf(),
        color1.eq_spec(&color2),
        p.string@ != q.string@,
        same_options(p, q),
        forall|out: (S, Vec<L>)| #[trigger]
            call_ensures(shape, (&q,), out) ==> out.0 == buffer && out.1@ == lines,
        forall|s: &S, k: &[L], t: &S, l: &[L], r: T| #[trigger]
            call_ensures(diff, (s, k, t, l), r) ==> r == report(*s, k@, *t, l@),
        shapes(shape, q, fresh),
        ({
            let drawn = cache.store(
                EntryView {
                    item: Some(item),
                    key: KeyView::of(font, p),
                    color: color1,
                    layout: previous,
                },
            );
            drawn.diff_base(item, KeyView::of(font, q), same_color(drawn, item, color2)) matches Some(
                base,
            ) ==> diff_returns(diff, base, fresh, region)
        }),
    ensures
        region == report(previous.shape_buffer, previous.lines, buffer, lines),
{
    law_determined_output_is_the_only_layout(shape, q, buffer, lines, fresh);
    law_change_after_draw(cache, item, font, p, color1, previous, font, q, color2);
    law_diff_reports_both_whole_layouts(diff, previous, fresh, region, report);
}

// The calls themselves
/// The recorded color of an item is that of the slot that holds that very item.
pub proof fn law_recorded_color_is_the_slots<S, L>(
    cache: &TextLayoutCache<S, L>,
    item: ItemId,
    color: Option<&Brush>,
)
    requires
        cache@.wf(),
        call_ensures(TextLayoutCache::<S, L>::recorded_color, (cache, item), color),
    ensures
        forall|i: int|
            0 <= i < cache@.slots.len() && (#[trigger] cache@.slots[i]) is Some
                && cache@.slots[i]->0.item == Some(item) ==> color == Some(
                &cache@.slots[i]->0.color,
            ),
        (forall|i: int|
            0 <= i < cache@.slots.len() && (#[trigger] cache@.slots[i]) is Some
                ==> cache@.slots[i]->0.item != Some(item)) ==> color is None,
{
    law_entry_is_the_items_own(cache@, Some(item));
    if cache@.entry_of(Some(item)) is Some {
        let i = cache@.slots.index_of(cache@.entry_of(Some(item)));
        assert(cache@.slots[i] is Some);
    }
}

/// A slot that holds an item is the slot of that item, in every cache.
proof fn lemma_slot_of_any<S, L>(item: Option<ItemId>, i: int)
    ensures
        forall|cache: CacheView<S, L>|
            cache.wf() && 0 <= i < cache.slots.len() && cache.slots[i] is Some
                && cache.slots[i]->0.item == item ==> #[trigger] cache.slot_of(item) == Some(i),
{
    assert forall|cache: CacheView<S, L>|
        cache.wf() && 0 <= i < cache.slots.len() && cache.slots[i] is Some && cache.slots[i]->0.item
            == item implies #[trigger] cache.slot_of(item) == Some(i) by {
        assert(cache.holds(i, item));
        lemma_slot_of(cache, i, item);
    }
}

/// The entry of an item is in a slot that holds that item, in every cache.
proof fn lemma_entry_of_any<S, L>(item: Option<ItemId>)
    ensures
        forall|cache: CacheView<S, L>|
            cache.wf() && (#[trigger] cache.entry_of(item)) is Some ==> exists|i: int|
                0 <= i < cache.slots.len() && #[trigger] cache.slots[i] == cache.entry_of(item)
                    && cache.slots[i]->0.item == item,
{
    assert forall|cache: CacheView<S, L>|
        cache.wf() && (#[trigger] cache.entry_of(item)) is Some implies exists|i: int|
        0 <= i < cache.slots.len() && #[trigger] cache.slots[i] == cache.entry_of(item)
            && cache.slots[i]->0.item == item by {
        let i = choose|i: int| cache.holds(i, item);
        lemma_slot_of(cache, i, item);
        assert(cache.slots[i] == cache.entry_of(item));
    }
}

/// A call of `default` gives a cache whose twenty-four slots are all vacant.
pub proof fn law_default_call<S, L>(cache: TextLayoutCache<S, L>)
    requires
        call_ensures(TextLayoutCache::<S, L>::default, (), cache),
    ensures
        cache@.wf(),
        cache@.slots.len() == 24,
        forall|i: int| 0 <= i < 24 ==> (#[trigger] cache@.slots[i]) is None,
        cache@.round_robin == 0,
{
    law_new_cache_is_vacant::<S, L>(None, arbitrary());
}

/// A call of `evict_item` vacates the slot that holds exactly that item, and
/// leaves every other slot and the round-robin as they were.
pub proof fn law_evict_item_call<S, L>(item: ItemId, i: int)
    requires
        0 <= i < 24,
    ensures
        forall|m: &mut TextLayoutCache<S, L>| #[trigger]
            call_ensures(TextLayoutCache::<S, L>::evict_item, (m, item), ()) && (*m)@.slots.len()
                == 24 ==> {
                &&& (*final(m))@.slots.len() == 24
                &&& (*final(m))@.round_robin == (*m)@.round_robin
                &&& (*final(m))@.slots[i] == if (*m)@.slots[i] is Some && (*m)@.slots[i]->0.item
                    == Some(item) {
                    None
                } else {
                    (*m)@.slots[i]
                }
            },
{
}

/// A call of `evict_tree` vacates the slots of the items of that tree, and
/// leaves every other slot and the round-robin as they were.
pub proof fn law_evict_tree_call<S, L>(tree: usize, i: int)
    requires
        0 <= i < 24,
    ensures
        forall|m: &mut TextLayoutCache<S, L>| #[trigger]
            call_ensures(TextLayoutCache::<S, L>::evict_tree, (m, tree), ()) && (*m)@.slots.len()
                == 24 ==> {
                &&& (*final(m))@.slots.len() == 24
                &&& (*final(m))@.round_robin == (*m)@.round_robin
                &&& (*final(m))@.slots[i] == if (*m)@.slots[i] is Some && (*m)@.slots[i]->0.item
                    is Some && ((*m)@.slots[i]->0.item->0).0 == tree {
                    None
                } else {
                    (*m)@.slots[i]
                }
            },
{
}

/// A call of `store` puts exactly what it is given into the slot of the item's
/// previous entry where there is one, else into the first vacant slot, else into
/// the round-robin slot, which only then moves on.
pub proof fn law_store_call<S, L>(
    item: Option<ItemId>,
    key: CacheKey,
    color: Brush,
    shape_buffer: S,
    lines: Vec<L>,
    t: int,
)
    requires
        0 <= t < 24,
    ensures
        forall|m: &mut TextLayoutCache<S, L>| #[trigger]
            call_ensures(
                TextLayoutCache::<S, L>::store,
                (m, item, key, color, shape_buffer, lines),
                (),
            ) && (*m)@.wf() && (*m)@.slots[t] is Some && (*m)@.slots[t]->0.item == item ==> {
                let entry = EntryView {
                    item,
                    key: key@,
                    color,
                    layout: LayoutView { shape_buffer, lines: lines@ },
                };
                &&& (*final(m))@.slots == (*m)@.slots.update(t, Some(entry))
                &&& (*final(m))@.round_robin == (*m)@.round_robin
            },
        forall|m: &mut TextLayoutCache<S, L>| #[trigger]
            call_ensures(
                TextLayoutCache::<S, L>::store,
                (m, item, key, color, shape_buffer, lines),
                (),
            ) && (*m)@.wf() && (*m)@.slots[t] is None && (forall|i: int|
                0 <= i < t ==> (#[trigger] (*m)@.slots[i]) is Some) && (forall|i: int|
                0 <= i < 24 && (#[trigger] (*m)@.slots[i]) is Some ==> (*m)@.slots[i]->0.item
                    != item) ==> {
                let entry = EntryView {
                    item,
                    key: key@,
                    color,
                    layout: LayoutView { shape_buffer, lines: lines@ },
                };
                &&& (*final(m))@.slots == (*m)@.slots.update(t, Some(entry))
                &&& (*final(m))@.round_robin == (*m)@.round_robin
            },
        forall|m: &mut TextLayoutCache<S, L>| #[trigger]
            call_ensures(
                TextLayoutCache::<S, L>::store,
                (m, item, key, color, shape_buffer, lines),
                (),
            ) && (*m)@.wf() && (*m)@.round_robin == t && (forall|i: int|
                0 <= i < 24 ==> (#[trigger] (*m)@.slots[i]) is Some && (*m)@.slots[i]->0.item
                    != item) ==> {
                let entry = EntryView {
                    item,
                    key: key@,
                    color,
                    layout: LayoutView { shape_buffer, lines: lines@ },
                };
                &&& (*final(m))@.slots == (*m)@.slots.update(t, Some(entry))
                &&& (*final(m))@.round_robin == if t == 23 {
                    0
                } else {
                    t + 1
                }
            },
{
    let entry = EntryView {
        item,
        key: key@,
        color,
        layout: LayoutView { shape_buffer, lines: lines@ },
    };
    assert forall|cache: CacheView<S, L>| cache.wf() implies {
        let after = #[trigger] cache.store(entry);
        &&& cache.slots[t] is Some && cache.slots[t]->0.item == item ==> after.slots
            == cache.slots.update(t, Some(entry)) && after.round_robin == cache.round_robin
        &&& cache.slots[t] is None && (forall|i: int|
            0 <= i < t ==> (#[trigger] cache.slots[i]) is Some) && (forall|i: int|
            0 <= i < 24 && (#[trigger] cache.slots[i]) is Some ==> cache.slots[i]->0.item != item)
            ==> after.slots == cache.slots.update(t, Some(entry)) && after.round_robin
            == cache.round_robin
        &&& cache.round_robin == t && (forall|i: int|
            0 <= i < 24 ==> (#[trigger] cache.slots[i]) is Some && cache.slots[i]->0.item != item)
            ==> after.slots == cache.slots.update(t, Some(entry)) && after.round_robin == if t == 23 {
            0
        } else {
            t + 1
        }
    } by {
        law_store_takes_the_right_slot(cache, entry, t);
    }
}

/// A call of `with_layout` on an item whose slot holds the same font, text and
/// options returns what `run` returns for the shape buffer and all the lines
/// stored there, and changes nothing but the brush recorded there.
pub proof fn law_with_layout_call_on_a_hit<
    S,
    L,
    R,
    Shape: FnOnce(&TextParagraphLayout<'_>) -> (S, Vec<L>),
    Run: FnOnce(&S, &[L]) -> Result<PhysicalLength, R>,
>(
    item: Option<ItemId>,
    p: &TextParagraphLayout<'_>,
    font: &[u8],
    color: Brush,
    shape: Shape,
    run: Run,
    may_return: spec_fn(S, Seq<L>, Result<PhysicalLength, R>) -> bool,
    result: Result<PhysicalLength, R>,
    i: int,
)
    requires
        0 <= i < 24,
        forall|s: &S, l: &[L], r: Result<PhysicalLength, R>| #[trigger]
            call_ensures(run, (s, l), r) ==> may_return(*s, l@, r),
    ensures
        forall|m: &mut TextLayoutCache<S, L>|
            {
                &&& #[trigger] call_ensures(
                    TextLayoutCache::<S, L>::with_layout,
                    (m, item, p, font, color, shape, run),
                    result,
                )
                &&& (*m)@.wf()
                &&& (*m)@.slots[i] is Some
                &&& (*m)@.slots[i]->0.item == item
                &&& (*m)@.slots[i]->0.key == KeyView::of(font@, *p)
            } ==> {
                let entry = (*m)@.slots[i]->0;
                &&& may_return(entry.layout.shape_buffer, entry.layout.lines, result)
                &&& (*final(m))@.slots == (*m)@.slots.update(i, Some(EntryView { color, ..entry }))
                &&& (*final(m))@.round_robin == (*m)@.round_robin
            },
{
    lemma_slot_of_any::<S, L>(item, i);
}

/// A call of `with_layout` on an item without a slot, or whose slot holds another
/// text, font or option, returns what `run` returns for the shape buffer and all
/// the lines that the shaping gives, and stores exactly these.
pub proof fn law_with_layout_call_on_a_miss<
    S,
    L,
    R,
    Shape: FnOnce(&TextParagraphLayout<'_>) -> (S, Vec<L>),
    Run: FnOnce(&S, &[L]) -> Result<PhysicalLength, R>,
>(
    item: Option<ItemId>,
    p: &TextParagraphLayout<'_>,
    font: &[u8],
    color: Brush,
    shape: Shape,
    run: Run,
    may_shape: spec_fn(S, Seq<L>) -> bool,
    may_return: spec_fn(S, Seq<L>, Result<PhysicalLength, R>) -> bool,
    result: Result<PhysicalLength, R>,
)
    requires
        forall|out: (S, Vec<L>)| #[trigger]
            call_ensures(shape, (p,), out) ==> may_shape(out.0, out.1@),
        forall|s: &S, l: &[L], r: Result<PhysicalLength, R>| #[trigger]
            call_ensures(run, (s, l), r) ==> may_return(*s, l@, r),
    ensures
        forall|m: &mut TextLayoutCache<S, L>|
            {
                &&& #[trigger] call_ensures(
                    TextLayoutCache::<S, L>::with_layout,
                    (m, item, p, font, color, shape, run),
                    result,
                )
                &&& (*m)@.wf()
                &&& forall|i: int|
                    0 <= i < 24 && (#[trigger] (*m)@.slots[i]) is Some && (*m)@.slots[i]->0.item
                        == item ==> (*m)@.slots[i]->0.key != KeyView::of(font@, *p)
            } ==> exists|buffer: S, lines: Seq<L>|
                {
                    &&& #[trigger] may_shape(buffer, lines)
                    &&& may_return(buffer, lines, result)
                    &&& (*final(m))@ == (*m)@.store(
                        EntryView {
                            item,
                            key: KeyView::of(font@, *p),
                            color,
                            layout: LayoutView { shape_buffer: buffer, lines },
                        },
                    )
                },
{
    lemma_entry_of_any::<S, L>(item);
    assert forall|layout: LayoutView<S, L>| #[trigger] shapes(shape, *p, layout) implies may_shape(
        layout.shape_buffer,
        layout.lines,
    ) by {}
}

/// A call of `text_changed_region` on an item whose slot holds the same brush,
/// font and options, and another text, returns what `diff` returns for all that
/// is stored there and all that the shaping gives, and puts the latter there.
pub proof fn law_text_changed_region_call_diffs<
    S,
    L,
    Shape: FnOnce(&TextParagraphLayout<'_>) -> (S, Vec<L>),
    Diff: FnOnce(&S, &[L], &S, &[L]) -> Option<PhysicalRect>,
>(
    item: ItemId,
    p: &TextParagraphLayout<'_>,
    font: &[u8],
    color: Brush,
    shape: Shape,
    diff: Diff,
    may_shape: spec_fn(S, Seq<L>) -> bool,
    may_return: spec_fn(S, Seq<L>, S, Seq<L>, Option<PhysicalRect>) -> bool,
    region: Option<PhysicalRect>,
    i: int,
)
    requires
        0 <= i < 24,
        forall|out: (S, Vec<L>)| #[trigger]
            call_ensures(shape, (p,), out) ==> may_shape(out.0, out.1@),
        forall|s: &S, k: &[L], t: &S, l: &[L], r: Option<PhysicalRect>| #[trigger]
            call_ensures(diff, (s, k, t, l), r) ==> may_return(*s, k@, *t, l@, r),
    ensures
        forall|m: &mut TextLayoutCache<S, L>|
            {
                &&& #[trigger] call_ensures(
                    TextLayoutCache::<S, L>::text_changed_region,
                    (m, item, p, font, color, shape, diff),
                    region,
                )
                &&& (*m)@.wf()
                &&& (*m)@.slots[i] is Some
                &&& (*m)@.slots[i]->0.item == Some(item)
                &&& (*m)@.slots[i]->0.color.eq_spec(&color)
                &&& (*m)@.slots[i]->0.key.string != vstd::utf8::encode_utf8(p.string@)
                &&& (*m)@.slots[i]->0.key == (KeyView {
                    string: (*m)@.slots[i]->0.key.string,
                    ..KeyView::of(font@, *p)
                })
            } ==> exists|buffer: S, lines: Seq<L>|
                {
                    let previous = (*m)@.slots[i]->0.layout;
                    &&& #[trigger] may_shape(buffer, lines)
                    &&& may_return(previous.shape_buffer, previous.lines, buffer, lines, region)
                    &&& (*final(m))@.slots == (*m)@.slots.update(
                        i,
                        Some(
                            EntryView {
                                item: Some(item),
                                key: KeyView::of(font@, *p),
                                color,
                                layout: LayoutView { shape_buffer: buffer, lines },
                            },
                        ),
                    )
                    &&& (*final(m))@.round_robin == (*m)@.round_robin
                },
{
    lemma_slot_of_any::<S, L>(Some(item), i);
    assert forall|layout: LayoutView<S, L>| #[trigger] shapes(shape, *p, layout) implies may_shape(
        layout.shape_buffer,
        layout.lines,
    ) by {}
}

/// A call of `diff_and_store` that is told that the brush is unchanged, on an item
/// whose slot holds the same font and options, and another text, returns what `diff` returns for all that
/// is stored there and all that the shaping gives, and puts the latter there.
pub proof fn law_diff_and_store_call_diffs<
    S,
    L,
    Shape: FnOnce(&TextParagraphLayout<'_>) -> (S, Vec<L>),
    Diff: FnOnce(&S, &[L], &S, &[L]) -> Option<PhysicalRect>,
>(
    item: ItemId,
    p: &TextParagraphLayout<'_>,
    font: &[u8],
    color: Brush,
    shape: Shape,
    diff: Diff,
    may_shape: spec_fn(S, Seq<L>) -> bool,
    may_return: spec_fn(S, Seq<L>, S, Seq<L>, Option<PhysicalRect>) -> bool,
    region: Option<PhysicalRect>,
    i: int,
)
    requires
        0 <= i < 24,
        forall|out: (S, Vec<L>)| #[trigger]
            call_ensures(shape, (p,), out) ==> may_shape(out.0, out.1@),
        forall|s: &S, k: &[L], t: &S, l: &[L], r: Option<PhysicalRect>| #[trigger]
            call_ensures(diff, (s, k, t, l), r) ==> may_return(*s, k@, *t, l@, r),
    ensures
        forall|m: &mut TextLayoutCache<S, L>|
            {
                &&& #[trigger] call_ensures(
                    TextLayoutCache::<S, L>::diff_and_store,
                    (m, item, p, font, color, true, shape, diff),
                    region,
                )
                &&& (*m)@.wf()
                &&& (*m)@.slots[i] is Some
                &&& (*m)@.slots[i]->0.item == Some(item)
                &&& (*m)@.slots[i]->0.key.string != vstd::utf8::encode_utf8(p.string@)
                &&& (*m)@.slots[i]->0.key == (KeyView {
                    string: (*m)@.slots[i]->0.key.string,
                    ..KeyView::of(font@, *p)
                })
            } ==> exists|buffer: S, lines: Seq<L>|
                {
                    let previous = (*m)@.slots[i]->0.layout;
                    &&& #[trigger] may_shape(buffer, lines)
                    &&& may_return(previous.shape_buffer, previous.lines, buffer, lines, region)
                    &&& (*final(m))@.slots == (*m)@.slots.update(
                        i,
                        Some(
                            EntryView {
                                item: Some(item),
                                key: KeyView::of(font@, *p),
                                color,
                                layout: LayoutView { shape_buffer: buffer, lines },
                            },
                        ),
                    )
                    &&& (*final(m))@.round_robin == (*m)@.round_robin
                },
{
    lemma_slot_of_any::<S, L>(Some(item), i);
    assert forall|layout: LayoutView<S, L>| #[trigger] shapes(shape, *p, layout) implies may_shape(
        layout.shape_buffer,
        layout.lines,
    ) by {}
}

/// A call of `text_changed_region` on an item without a slot, or whose slot holds
/// another brush, the same text, another font or another option, returns `None`
/// and changes nothing.
pub proof fn law_text_changed_region_call_declines<
    S,
    L,
    Shape: FnOnce(&TextParagraphLayout<'_>) -> (S, Vec<L>),
    Diff: FnOnce(&S, &[L], &S, &[L]) -> Option<PhysicalRect>,
>(
    item: ItemId,
    p: &TextParagraphLayout<'_>,
    font: &[u8],
    color: Brush,
    shape: Shape,
    diff: Diff,
    region: Option<PhysicalRect>,
)
    ensures
        forall|m: &mut TextLayoutCache<S, L>|
            {
                &&& #[trigger] call_ensures(
                    TextLayoutCache::<S, L>::text_changed_region,
                    (m, item, p, font, color, shape, diff),
                    region,
                )
                &&& (*m)@.wf()
                &&& forall|i: int|
                    0 <= i < 24 && (#[trigger] (*m)@.slots[i]) is Some && (*m)@.slots[i]->0.item
                        == Some(item) ==> {
                        ||| !(*m)@.slots[i]->0.color.eq_spec(&color)
                        ||| (*m)@.slots[i]->0.key.string == vstd::utf8::encode_utf8(p.string@)
                        ||| (*m)@.slots[i]->0.key != (KeyView {
                            string: (*m)@.slots[i]->0.key.string,
                            ..KeyView::of(font@, *p)
                        })
                    }
            } ==> region is None && (*final(m))@ == (*m)@,
{
    lemma_entry_of_any::<S, L>(Some(item));
}

/// A call of `diff_and_store` that is told that the brush changed, or on an item
/// without a slot, or whose slot holds the same text, another font or another
/// option, returns `None` and changes nothing.
pub proof fn law_diff_and_store_call_declines<
    S,
    L,
    Shape: FnOnce(&TextParagraphLayout<'_>) -> (S, Vec<L>),
    Diff: FnOnce(&S, &[L], &S, &[L]) -> Option<PhysicalRect>,
>(
    item: ItemId,
    p: &TextParagraphLayout<'_>,
    font: &[u8],
    color: Brush,
    unchanged_color: bool,
    shape: Shape,
    diff: Diff,
    region: Option<PhysicalRect>,
)
    ensures
        forall|m: &mut TextLayoutCache<S, L>|
            {
                &&& #[trigger] call_ensures(
                    TextLayoutCache::<S, L>::diff_and_store,
                    (m, item, p, font, color, unchanged_color, shape, diff),
                    region,
                )
                &&& (*m)@.wf()
                &&& forall|i: int|
                    0 <= i < 24 && (#[trigger] (*m)@.slots[i]) is Some && (*m)@.slots[i]->0.item
                        == Some(item) ==> {
                        ||| !unchanged_color
                        ||| (*m)@.slots[i]->0.key.string == vstd::utf8::encode_utf8(p.string@)
                        ||| (*m)@.slots[i]->0.key != (KeyView {
                            string: (*m)@.slots[i]->0.key.string,
                            ..KeyView::of(font@, *p)
                        })
                    }
            } ==> region is None && (*final(m))@ == (*m)@,
{
    lemma_entry_of_any::<S, L>(Some(item));
}

/// A well-formed cache accepts every call: nothing is asked of the item, the
/// paragraph, the font or the brush, and closures that can be called on anything
/// are enough.
pub proof fn law_well_formed_caches_accept_every_call<
    S,
    L,
    R,
    Shape: FnOnce(&TextParagraphLayout<'_>) -> (S, Vec<L>),
    Run: FnOnce(&S, &[L]) -> Result<PhysicalLength, R>,
    Diff: FnOnce(&S, &[L], &S, &[L]) -> Option<PhysicalRect>,
>(
    item: ItemId,
    drawn: Option<ItemId>,
    p: &TextParagraphLayout<'_>,
    font: &[u8],
    key: CacheKey,
    color: Brush,
    unchanged_color: bool,
    shape_buffer: S,
    lines: Vec<L>,
    shape: Shape,
    run: Run,
    diff: Diff,
    tree: usize,
)
    requires
        call_requires(shape, (p,)),
        forall|s: &S, l: &[L]| #[trigger] call_requires(run, (s, l)),
        forall|s: &S, k: &[L], t: &S, l: &[L]| #[trigger] call_requires(diff, (s, k, t, l)),
    ensures
        forall|m: &mut TextLayoutCache<S, L>|
            (*m)@.wf() ==> #[trigger] call_requires(
                TextLayoutCache::<S, L>::with_layout,
                (m, drawn, p, font, color, shape, run),
            ),
        forall|m: &mut TextLayoutCache<S, L>|
            (*m)@.wf() ==> #[trigger] call_requires(
                TextLayoutCache::<S, L>::text_changed_region,
                (m, item, p, font, color, shape, diff),
            ),
        forall|m: &mut TextLayoutCache<S, L>|
            (*m)@.wf() ==> #[trigger] call_requires(
                TextLayoutCache::<S, L>::diff_and_store,
                (m, item, p, font, color, unchanged_color, shape, diff),
            ),
        forall|m: &mut TextLayoutCache<S, L>|
            (*m)@.wf() ==> #[trigger] call_requires(
                TextLayoutCache::<S, L>::store,
                (m, drawn, key, color, shape_buffer, lines),
            ),
        forall|m: &mut TextLayoutCache<S, L>|
            (*m)@.wf() ==> #[trigger] call_requires(
                TextLayoutCache::<S, L>::evict_item,
                (m, item),
            ),
        forall|m: &mut TextLayoutCache<S, L>|
            (*m)@.wf() ==> #[trigger] call_requires(
                TextLayoutCache::<S, L>::evict_tree,
                (m, tree),
            ),
{
}

/// Every call leaves a well-formed cache behind, so that calls can follow each
/// other in any order.
pub proof fn law_calls_leave_well_formed_caches<
    S,
    L,
    R,
    Shape: FnOnce(&TextParagraphLayout<'_>) -> (S, Vec<L>),
    Run: FnOnce(&S, &[L]) -> Result<PhysicalLength, R>,
    Diff: FnOnce(&S, &[L], &S, &[L]) -> Option<PhysicalRect>,
>(
    item: ItemId,
    drawn: Option<ItemId>,
    p: &TextParagraphLayout<'_>,
    font: &[u8],
    key: CacheKey,
    color: Brush,
    unchanged_color: bool,
    shape_buffer: S,
    lines: Vec<L>,
    shape: Shape,
    run: Run,
    diff: Diff,
    tree: usize,
    result: Result<PhysicalLength, R>,
    region: Option<PhysicalRect>,
)
    ensures
        forall|m: &mut TextLayoutCache<S, L>|
            (*m)@.wf() && #[trigger] call_ensures(
                TextLayoutCache::<S, L>::with_layout,
                (m, drawn, p, font, color, shape, run),
                result,
            ) ==> (*final(m))@.wf(),
        forall|m: &mut TextLayoutCache<S, L>|
            (*m)@.wf() && #[trigger] call_ensures(
                TextLayoutCache::<S, L>::text_changed_region,
                (m, item, p, font, color, shape, diff),
                region,
            ) ==> (*final(m))@.wf(),
        forall|m: &mut TextLayoutCache<S, L>|
            (*m)@.wf() && #[trigger] call_ensures(
                TextLayoutCache::<S, L>::diff_and_store,
                (m, item, p, font, color, unchanged_color, shape, diff),
                region,
            ) ==> (*final(m))@.wf(),
        forall|m: &mut TextLayoutCache<S, L>|
            (*m)@.wf() && #[trigger] call_ensures(
                TextLayoutCache::<S, L>::store,
                (m, drawn, key, color, shape_buffer, lines),
                (),
            ) ==> (*final(m))@.wf(),
        forall|m: &mut TextLayoutCache<S, L>|
            (*m)@.wf() && #[trigger] call_ensures(
                TextLayoutCache::<S, L>::evict_item,
                (m, item),
                (),
            ) ==> (*final(m))@.wf(),
        forall|m: &mut TextLayoutCache<S, L>|
            (*m)@.wf() && #[trigger] call_ensures(
                TextLayoutCache::<S, L>::evict_tree,
                (m, tree),
                (),
            ) ==> (*final(m))@.wf(),
{
}

} // verus!
