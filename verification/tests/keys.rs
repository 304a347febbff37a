use textlayout_cache::{
    CacheKey, PhysicalLength, TextHorizontalAlignment, TextLayout, TextOverflow,
    TextParagraphLayout, TextVerticalAlignment, TextWrap,
};

fn paragraph(string: &str) -> TextParagraphLayout<'_> {
    TextParagraphLayout {
        string,
        layout: TextLayout { letter_spacing: None, line_height: None },
        max_width: PhysicalLength(480),
        max_height: PhysicalLength(60),
        horizontal_alignment: TextHorizontalAlignment::Left,
        vertical_alignment: TextVerticalAlignment::Top,
        wrap: TextWrap::WordWrap,
        overflow: TextOverflow::Clip,
        single_line: false,
        max_lines: None,
    }
}

fn variants(string: &str) -> Vec<TextParagraphLayout<'_>> {
    let base = paragraph(string);
    vec![
        TextParagraphLayout {
            layout: TextLayout { letter_spacing: Some(PhysicalLength(0)), line_height: None },
            ..base
        },
        TextParagraphLayout {
            layout: TextLayout { letter_spacing: None, line_height: Some(PhysicalLength(20)) },
            ..base
        },
        TextParagraphLayout { max_width: PhysicalLength(400), ..base },
        TextParagraphLayout { max_height: PhysicalLength(61), ..base },
        TextParagraphLayout { horizontal_alignment: TextHorizontalAlignment::Center, ..base },
        TextParagraphLayout { vertical_alignment: TextVerticalAlignment::Bottom, ..base },
        TextParagraphLayout { wrap: TextWrap::NoWrap, ..base },
        TextParagraphLayout { overflow: TextOverflow::Elide, ..base },
        TextParagraphLayout { single_line: true, ..base },
        TextParagraphLayout { max_lines: Some(2), ..base },
    ]
}

#[test]
fn equal_inputs_make_equal_keys() {
    let a = CacheKey::new(b"mono-14", &paragraph("Hello 123"));
    let b = CacheKey::new(b"mono-14", &paragraph("Hello 123"));
    assert!(a == b);
    assert!(a.matches_except_string(&b));
}

#[test]
fn only_the_string_may_differ() {
    let a = CacheKey::new(b"mono-14", &paragraph("gamma"));
    let b = CacheKey::new(b"mono-14", &paragraph("delta"));
    assert!(a != b);
    assert!(a.matches_except_string(&b));
    assert!(b.matches_except_string(&a));
}

#[test]
fn strings_of_different_length_differ() {
    let a = CacheKey::new(b"mono-14", &paragraph("Value 9"));
    let b = CacheKey::new(b"mono-14", &paragraph("Value 99"));
    let empty = CacheKey::new(b"mono-14", &paragraph(""));
    assert!(a != b);
    assert!(a != empty);
    assert!(a.matches_except_string(&b));
    assert!(a.matches_except_string(&empty));
}

#[test]
fn composed_and_decomposed_characters_differ() {
    let composed = CacheKey::new(b"mono-14", &paragraph("caf\u{e9}"));
    let decomposed = CacheKey::new(b"mono-14", &paragraph("cafe\u{301}"));
    assert!(composed != decomposed);
    assert!(composed.matches_except_string(&decomposed));
}

#[test]
fn the_font_is_part_of_the_key() {
    let a = CacheKey::new(b"mono-14", &paragraph("gamma"));
    let b = CacheKey::new(b"mono-16", &paragraph("gamma"));
    let c = CacheKey::new(b"mono-1", &paragraph("gamma"));
    assert!(a != b);
    assert!(!a.matches_except_string(&b));
    assert!(!a.matches_except_string(&c));
}

#[test]
fn font_and_string_are_not_run_together() {
    let a = CacheKey::new(b"ab", &paragraph("c"));
    let b = CacheKey::new(b"a", &paragraph("bc"));
    assert!(a != b);
}

#[test]
fn every_layout_input_is_part_of_the_key() {
    let base = CacheKey::new(b"mono-14", &paragraph("gamma"));
    for variant in variants("gamma") {
        let key = CacheKey::new(b"mono-14", &variant);
        assert!(base != key, "{:?}", variant);
        assert!(!base.matches_except_string(&key), "{:?}", variant);
        assert!(!key.matches_except_string(&base), "{:?}", variant);
    }
}

#[test]
fn no_length_is_not_a_zero_length() {
    let mut spaced = paragraph("gamma");
    spaced.layout.letter_spacing = Some(PhysicalLength(0));
    let mut wider = paragraph("gamma");
    wider.layout.letter_spacing = Some(PhysicalLength(1));
    let none = CacheKey::new(b"mono-14", &paragraph("gamma"));
    let zero = CacheKey::new(b"mono-14", &spaced);
    let one = CacheKey::new(b"mono-14", &wider);
    assert!(none != zero);
    assert!(zero != one);
    assert!(zero == CacheKey::new(b"mono-14", &spaced));
}

#[test]
fn matching_except_for_the_string_is_transitive() {
    let a = CacheKey::new(b"mono-14", &paragraph("alpha"));
    let b = CacheKey::new(b"mono-14", &paragraph("delta"));
    let c = CacheKey::new(b"mono-14", &paragraph("theta"));
    assert!(a.matches_except_string(&a));
    assert!(a.matches_except_string(&b) && b.matches_except_string(&c));
    assert!(a.matches_except_string(&c));
}
