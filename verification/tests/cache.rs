use i_slint_core::graphics::{GradientStop, LinearGradientBrush, RadialGradientBrush};
use i_slint_core::{Brush, Color};
use textlayout_cache::{
    CacheKey, PhysicalLength, PhysicalRect, TextHorizontalAlignment, TextLayout,
    TextLayoutCache, TextOverflow, TextParagraphLayout, TextVerticalAlignment, TextWrap,
};

const FONT: &[u8] = b"mono-14";
const SLOTS: usize = 24;

/// The shape buffer of a test layout is its text, and each word is a line.
type Cache = TextLayoutCache<String, String>;

fn paragraph(string: &str) -> TextParagraphLayout<'_> {
    TextParagraphLayout {
        string,
        layout: TextLayout { letter_spacing: None, line_height: None },
        max_width: PhysicalLength(480),
        max_height: PhysicalLength(60),
        horizontal_alignment: TextHorizontalAlignment::Left,
        vertical_alignment: TextVerticalAlignment::Top,
        wrap: TextWrap::WordWrap,
        overflow: TextOverflow::Clip,
        single_line: false,
        max_lines: None,
    }
}

fn shape(paragraph: &TextParagraphLayout<'_>) -> (String, Vec<String>) {
    let lines = paragraph.string.split(' ').map(String::from).collect();
    (paragraph.string.to_string(), lines)
}

fn color(red: u8, green: u8, blue: u8) -> Brush {
    Brush::SolidColor(Color::from_rgb_u8(red, green, blue))
}

fn black() -> Brush {
    color(0, 0, 0)
}

fn rect() -> PhysicalRect {
    PhysicalRect { x: 8, y: 0, width: 40, height: 20 }
}

/// What a draw did: whether it laid the paragraph out anew, and the text and
/// lines that it drew.
struct Drawn {
    shaped: bool,
    text: String,
    lines: Vec<String>,
}

fn draw_with(
    cache: &mut Cache,
    item: Option<(usize, u32)>,
    paragraph: &TextParagraphLayout<'_>,
    font: &[u8],
    brush: Brush,
) -> Drawn {
    let mut drawn = Drawn { shaped: false, text: String::new(), lines: Vec::new() };
    let shaped = &mut drawn.shaped;
    let text = &mut drawn.text;
    let lines = &mut drawn.lines;
    let result: Result<PhysicalLength, ()> = cache.with_layout(
        item,
        paragraph,
        font,
        brush,
        |p| {
            *shaped = true;
            shape(p)
        },
        |s, l| {
            *text = s.clone();
            *lines = l.to_vec();
            Ok(PhysicalLength(11))
        },
    );
    assert_eq!(result, Ok(PhysicalLength(11)));
    drawn
}

fn draw(cache: &mut Cache, item: Option<(usize, u32)>, string: &str) -> Drawn {
    draw_with(cache, item, &paragraph(string), FONT, black())
}

/// The region that `text_changed_region` returns, and the two texts that were
/// diffed, if any.
fn change_with(
    cache: &mut Cache,
    item: (usize, u32),
    paragraph: &TextParagraphLayout<'_>,
    font: &[u8],
    brush: Brush,
    found: Option<PhysicalRect>,
) -> (Option<PhysicalRect>, Option<(String, String)>) {
    let mut diffed = None;
    let mut shaped = false;
    let region = cache.text_changed_region(
        item,
        paragraph,
        font,
        brush,
        |p| {
            shaped = true;
            shape(p)
        },
        |old, old_lines, new, new_lines| {
            assert_eq!(old_lines.join(" "), *old);
            assert_eq!(new_lines.join(" "), *new);
            diffed = Some((old.clone(), new.clone()));
            found
        },
    );
    assert_eq!(shaped, diffed.is_some());
    (region, diffed)
}

fn change(cache: &mut Cache, item: (usize, u32), string: &str) -> (Option<PhysicalRect>, Option<(String, String)>) {
    change_with(cache, item, &paragraph(string), FONT, black(), Some(rect()))
}

fn texts(old: &str, new: &str) -> Option<(String, String)> {
    Some((old.to_string(), new.to_string()))
}

#[test]
fn a_new_cache_serves_nothing() {
    let mut cache = Cache::default();
    assert!(cache.recorded_color((1, 0)).is_none());
    assert_eq!(change(&mut cache, (1, 0), "gamma"), (None, None));
    assert!(draw(&mut cache, Some((1, 0)), "gamma").shaped);
}

#[test]
fn an_unchanged_paragraph_is_served() {
    let mut cache = Cache::default();
    let first = draw(&mut cache, Some((1, 0)), "Hello 123");
    assert!(first.shaped);
    assert_eq!(first.text, "Hello 123");
    assert_eq!(first.lines, vec!["Hello", "123"]);
    let second = draw(&mut cache, Some((1, 0)), "Hello 123");
    assert!(!second.shaped);
    assert_eq!(second.text, "Hello 123");
    assert_eq!(second.lines, vec!["Hello", "123"]);
}

#[test]
fn the_result_of_run_is_returned() {
    let mut cache = Cache::default();
    let p = paragraph("gamma");
    let missed: Result<PhysicalLength, u8> =
        cache.with_layout(Some((1, 0)), &p, FONT, black(), shape, |_, _| Err(7));
    assert_eq!(missed, Err(7));
    let hit: Result<PhysicalLength, u8> =
        cache.with_layout(Some((1, 0)), &p, FONT, black(), shape, |_, _| Err(8));
    assert_eq!(hit, Err(8));
    let drawn: Result<PhysicalLength, u8> = cache.with_layout(
        Some((1, 0)),
        &p,
        FONT,
        black(),
        |_| panic!("the layout is cached"),
        |s, l| Ok(PhysicalLength((s.len() + l.len()) as i16)),
    );
    assert_eq!(drawn, Ok(PhysicalLength(6)));
}

#[test]
fn a_color_change_keeps_the_entry_servable() {
    let mut cache = Cache::default();
    let p = paragraph("gamma");
    assert!(draw_with(&mut cache, Some((1, 0)), &p, FONT, color(0xf0, 0xa8, 0x30)).shaped);
    assert_eq!(cache.recorded_color((1, 0)), Some(&color(0xf0, 0xa8, 0x30)));
    assert!(!draw_with(&mut cache, Some((1, 0)), &p, FONT, color(0x30, 0xa8, 0xf0)).shaped);
    assert_eq!(cache.recorded_color((1, 0)), Some(&color(0x30, 0xa8, 0xf0)));
}

#[test]
fn a_changed_string_replaces_the_layout() {
    let mut cache = Cache::default();
    assert!(draw(&mut cache, Some((1, 0)), "gamma").shaped);
    let changed = draw(&mut cache, Some((1, 0)), "delta");
    assert!(changed.shaped);
    assert_eq!(changed.text, "delta");
    assert!(!draw(&mut cache, Some((1, 0)), "delta").shaped);
    assert!(draw(&mut cache, Some((1, 0)), "gamma").shaped);
}

#[test]
fn items_do_not_share_layouts() {
    let mut cache = Cache::default();
    assert!(draw(&mut cache, Some((1, 0)), "gamma").shaped);
    assert!(draw(&mut cache, Some((1, 1)), "gamma").shaped);
    assert!(draw(&mut cache, Some((2, 0)), "gamma").shaped);
    assert!(draw(&mut cache, None, "gamma").shaped);
    assert!(!draw(&mut cache, Some((1, 0)), "gamma").shaped);
    assert!(!draw(&mut cache, Some((1, 1)), "gamma").shaped);
    assert!(!draw(&mut cache, Some((2, 0)), "gamma").shaped);
    assert!(!draw(&mut cache, None, "gamma").shaped);
}

#[test]
fn text_without_an_item_has_one_entry() {
    let mut cache = Cache::default();
    assert!(draw(&mut cache, None, "one").shaped);
    assert!(draw(&mut cache, None, "two").shaped);
    assert!(draw(&mut cache, None, "one").shaped);
    assert!(!draw(&mut cache, None, "one").shaped);
}

#[test]
fn every_layout_input_is_looked_up() {
    let base = paragraph("gamma");
    let variants = vec![
        TextParagraphLayout {
            layout: TextLayout { letter_spacing: Some(PhysicalLength(2)), line_height: None },
            ..base
        },
        TextParagraphLayout {
            layout: TextLayout { letter_spacing: None, line_height: Some(PhysicalLength(30)) },
            ..base
        },
        TextParagraphLayout { max_width: PhysicalLength(400), ..base },
        TextParagraphLayout { max_height: PhysicalLength(20), ..base },
        TextParagraphLayout { horizontal_alignment: TextHorizontalAlignment::Right, ..base },
        TextParagraphLayout { vertical_alignment: TextVerticalAlignment::Center, ..base },
        TextParagraphLayout { wrap: TextWrap::CharWrap, ..base },
        TextParagraphLayout { overflow: TextOverflow::Elide, ..base },
        TextParagraphLayout { single_line: true, ..base },
        TextParagraphLayout { max_lines: Some(1), ..base },
    ];
    for variant in variants {
        let mut cache = Cache::default();
        assert!(draw_with(&mut cache, Some((1, 0)), &base, FONT, black()).shaped);
        let other_text = TextParagraphLayout { string: "delta", ..variant };
        assert_eq!(
            change_with(&mut cache, (1, 0), &other_text, FONT, black(), Some(rect())),
            (None, None)
        );
        assert!(!draw_with(&mut cache, Some((1, 0)), &base, FONT, black()).shaped);
        assert!(draw_with(&mut cache, Some((1, 0)), &variant, FONT, black()).shaped);
        assert!(!draw_with(&mut cache, Some((1, 0)), &variant, FONT, black()).shaped);
    }
    let mut cache = Cache::default();
    assert!(draw_with(&mut cache, Some((1, 0)), &base, FONT, black()).shaped);
    assert_eq!(
        change_with(&mut cache, (1, 0), &paragraph("delta"), b"mono-20", black(), Some(rect())),
        (None, None)
    );
    assert!(draw_with(&mut cache, Some((1, 0)), &base, b"mono-20", black()).shaped);
}

#[test]
fn a_changed_text_is_diffed_against_the_last_layout() {
    let mut cache = Cache::default();
    draw(&mut cache, Some((1, 0)), "Value 8");
    let (region, diffed) = change(&mut cache, (1, 0), "Value 9");
    assert_eq!(region, Some(rect()));
    assert_eq!(diffed, texts("Value 8", "Value 9"));
    let (region, diffed) = change(&mut cache, (1, 0), "Value 10");
    assert_eq!(region, Some(rect()));
    assert_eq!(diffed, texts("Value 9", "Value 10"));
    let drawn = draw(&mut cache, Some((1, 0)), "Value 10");
    assert!(!drawn.shaped);
    assert_eq!(drawn.text, "Value 10");
    assert_eq!(drawn.lines, vec!["Value", "10"]);
}

#[test]
fn a_diff_that_finds_nothing_still_stores_the_fresh_layout() {
    let mut cache = Cache::default();
    draw(&mut cache, Some((1, 0)), "hidden-one");
    let (region, diffed) =
        change_with(&mut cache, (1, 0), &paragraph("hidden-two"), FONT, black(), None);
    assert_eq!(region, None);
    assert_eq!(diffed, texts("hidden-one", "hidden-two"));
    assert!(!draw(&mut cache, Some((1, 0)), "hidden-two").shaped);
}

#[test]
fn an_unchanged_text_is_not_diffed() {
    let mut cache = Cache::default();
    draw(&mut cache, Some((1, 0)), "gamma");
    assert_eq!(change(&mut cache, (1, 0), "gamma"), (None, None));
    assert!(!draw(&mut cache, Some((1, 0)), "gamma").shaped);
}

#[test]
fn a_changed_color_is_not_diffed() {
    let mut cache = Cache::default();
    draw(&mut cache, Some((1, 0)), "gamma");
    let red = color(255, 0, 0);
    assert_eq!(
        change_with(&mut cache, (1, 0), &paragraph("delta"), FONT, red.clone(), Some(rect())),
        (None, None)
    );
    assert_eq!(cache.recorded_color((1, 0)), Some(&black()));
    draw_with(&mut cache, Some((1, 0)), &paragraph("gamma"), FONT, red.clone());
    let (region, diffed) =
        change_with(&mut cache, (1, 0), &paragraph("delta"), FONT, red, Some(rect()));
    assert_eq!(region, Some(rect()));
    assert_eq!(diffed, texts("gamma", "delta"));
}

#[test]
fn gradients_that_paint_alike_count_as_the_same_color() {
    let stops = || {
        vec![
            GradientStop { color: Color::from_rgb_u8(0, 0, 0), position: 0.0 },
            GradientStop { color: Color::from_rgb_u8(255, 0, 0), position: 1.0 },
        ]
    };
    let circle = || Brush::RadialGradient(RadialGradientBrush::new_circle(stops()));
    let negative = Brush::RadialGradient(RadialGradientBrush::new_circle(stops()).with_radius(-3.0));
    let mut cache = Cache::default();
    draw_with(&mut cache, Some((1, 0)), &paragraph("gamma"), FONT, circle());
    let (region, _) =
        change_with(&mut cache, (1, 0), &paragraph("delta"), FONT, circle(), Some(rect()));
    assert_eq!(region, Some(rect()));
    let (region, _) =
        change_with(&mut cache, (1, 0), &paragraph("theta"), FONT, negative, Some(rect()));
    assert_eq!(region, Some(rect()));

    let turned = |angle: f32| Brush::LinearGradient(LinearGradientBrush::new(angle, stops()));
    draw_with(&mut cache, Some((2, 0)), &paragraph("gamma"), FONT, turned(90.0));
    assert_eq!(
        change_with(&mut cache, (2, 0), &paragraph("delta"), FONT, turned(45.0), Some(rect())),
        (None, None)
    );
    draw_with(&mut cache, Some((3, 0)), &paragraph("gamma"), FONT, turned(f32::NAN));
    assert_eq!(
        change_with(&mut cache, (3, 0), &paragraph("delta"), FONT, turned(f32::NAN), Some(rect())),
        (None, None)
    );
}

#[test]
fn the_comparison_of_colors_can_be_supplied() {
    let mut cache = Cache::default();
    draw(&mut cache, Some((1, 0)), "gamma");
    let p = paragraph("delta");
    let refused = cache.diff_and_store(
        (1, 0),
        &p,
        FONT,
        black(),
        false,
        |_| panic!("nothing to lay out"),
        |_, _, _, _| panic!("nothing to diff"),
    );
    assert_eq!(refused, None);
    let diffed = cache.diff_and_store(
        (1, 0),
        &p,
        FONT,
        color(255, 0, 0),
        true,
        shape,
        |_, _, _, _| Some(rect()),
    );
    assert_eq!(diffed, Some(rect()));
    assert_eq!(cache.recorded_color((1, 0)), Some(&color(255, 0, 0)));
    assert!(!draw(&mut cache, Some((1, 0)), "delta").shaped);
}

#[test]
fn text_without_an_item_is_never_a_diff_base() {
    let mut cache = Cache::default();
    draw(&mut cache, None, "gamma");
    assert_eq!(change(&mut cache, (0, 0), "delta"), (None, None));
    assert!(!draw(&mut cache, None, "gamma").shaped);
}

#[test]
fn emptying_a_text_leaves_no_diff_base() {
    let mut cache = Cache::default();
    draw(&mut cache, Some((1, 0)), "counter 8");
    draw(&mut cache, Some((1, 1)), "other");
    cache.evict_item((1, 0));
    assert!(cache.recorded_color((1, 0)).is_none());
    assert_eq!(change(&mut cache, (1, 0), "counter 9"), (None, None));
    assert!(draw(&mut cache, Some((1, 0)), "counter 8").shaped);
    assert!(!draw(&mut cache, Some((1, 1)), "other").shaped);
}

#[test]
fn a_destroyed_tree_leaves_nothing_behind() {
    let mut cache = Cache::default();
    for index in 0..3 {
        draw(&mut cache, Some((7, index)), "old");
    }
    draw(&mut cache, Some((8, 0)), "kept");
    draw(&mut cache, None, "kept");
    cache.evict_tree(7);
    for index in 0..3 {
        assert_eq!(change(&mut cache, (7, index), "new"), (None, None));
        assert!(draw(&mut cache, Some((7, index)), "old").shaped);
    }
    assert!(!draw(&mut cache, Some((8, 0)), "kept").shaped);
    assert!(!draw(&mut cache, None, "kept").shaped);
}

#[test]
fn destroying_a_tree_covers_evicting_its_items() {
    let mut cache = Cache::default();
    draw(&mut cache, Some((7, 1)), "old");
    cache.evict_item((7, 1));
    cache.evict_tree(7);
    cache.evict_item((7, 1));
    assert!(cache.recorded_color((7, 1)).is_none());
    assert!(draw(&mut cache, Some((7, 1)), "old").shaped);
}

#[test]
fn as_many_items_as_slots_stay_cached() {
    let mut cache = Cache::default();
    for frame in 0..3 {
        for index in 0..SLOTS {
            let text = format!("item {}", index);
            let drawn = draw(&mut cache, Some((1, index as u32)), &text);
            assert_eq!(drawn.shaped, frame == 0, "frame {} item {}", frame, index);
            assert_eq!(drawn.text, text);
        }
    }
}

#[test]
fn more_items_than_slots_are_never_served() {
    let mut cache = Cache::default();
    for frame in 0..4 {
        for index in 0..SLOTS + 1 {
            let drawn = draw(&mut cache, Some((1, index as u32)), "same");
            assert!(drawn.shaped, "frame {} item {}", frame, index);
            assert_eq!(drawn.text, "same");
        }
    }
}

#[test]
fn a_full_cache_is_overwritten_in_turn() {
    let mut cache = Cache::default();
    for index in 0..SLOTS {
        draw(&mut cache, Some((1, index as u32)), "first");
    }
    draw(&mut cache, Some((2, 0)), "second");
    draw(&mut cache, Some((2, 1)), "second");
    assert!(cache.recorded_color((1, 0)).is_none());
    assert!(cache.recorded_color((1, 1)).is_none());
    for index in 2..SLOTS {
        assert!(!draw(&mut cache, Some((1, index as u32)), "first").shaped);
    }
    assert!(!draw(&mut cache, Some((2, 0)), "second").shaped);
    assert!(!draw(&mut cache, Some((2, 1)), "second").shaped);
}

#[test]
fn a_vacant_slot_is_taken_before_an_entry_is_evicted() {
    let mut cache = Cache::default();
    for index in 0..SLOTS {
        draw(&mut cache, Some((1, index as u32)), "first");
    }
    cache.evict_item((1, 5));
    draw(&mut cache, Some((2, 0)), "second");
    assert!(cache.recorded_color((1, 0)).is_some());
    draw(&mut cache, Some((2, 1)), "second");
    assert!(cache.recorded_color((1, 0)).is_none());
    assert!(cache.recorded_color((1, 1)).is_some());
    assert!(cache.recorded_color((2, 0)).is_some());
}

#[test]
fn a_full_cache_keeps_all_entries_when_an_item_changes() {
    let mut cache = Cache::default();
    for index in 0..SLOTS {
        draw(&mut cache, Some((1, index as u32)), "first");
    }
    draw(&mut cache, Some((1, 7)), "second");
    assert_eq!(change(&mut cache, (1, 8), "third").1, texts("first", "third"));
    for index in 0..SLOTS {
        assert!(cache.recorded_color((1, index as u32)).is_some());
    }
    assert!(!draw(&mut cache, Some((1, 7)), "second").shaped);
    assert!(!draw(&mut cache, Some((1, 8)), "third").shaped);
}

#[test]
fn a_stored_layout_is_served() {
    let mut cache = Cache::default();
    let p = paragraph("gamma");
    let key = CacheKey::new(FONT, &p);
    cache.store(Some((1, 0)), key, black(), String::from("kept"), vec![String::from("line")]);
    let drawn = draw_with(&mut cache, Some((1, 0)), &p, FONT, black());
    assert!(!drawn.shaped);
    assert_eq!(drawn.text, "kept");
    assert_eq!(drawn.lines, vec!["line"]);
}

#[test]
fn the_cache_draws_what_recomputing_would() {
    let words = ["gamma", "delta", "theta", "alpha", "zeta"];
    let mut cache = Cache::default();
    let mut state: u64 = 0x1234_5678;
    for _ in 0..2000 {
        state = state.wrapping_mul(6364136223846793005).wrapping_add(1442695040888963407);
        let pick = (state >> 33) as usize;
        let item = (pick % 3, (pick / 3 % 11) as u32);
        let word = words[pick / 33 % words.len()];
        match pick / 165 % 8 {
            0 => cache.evict_item(item),
            1 => cache.evict_tree(item.0),
            2 | 3 => {
                if let (_, Some((_, new))) = change(&mut cache, item, word) {
                    assert_eq!(new, word);
                }
            }
            _ => assert_eq!(draw(&mut cache, Some(item), word).text, word),
        }
    }
}
