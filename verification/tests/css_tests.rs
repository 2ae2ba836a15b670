use fragment_directives::css::CssValue;
use fragment_directives::font::{
    FeatureTagValue, FontSettings, FontStyle, FontTag, GenericFontSizeAdjust, LineHeight,
    TaggedFontValue, VariationValue,
};
use fragment_directives::text::{
    GenericHyphenateLimitChars, GenericTextDecorationLength, GenericTextIndent, InitialLetter,
    NumberOrAuto,
};

#[test]
fn number_serializes_in_decimal() {
    assert_eq!(0u32.to_css_string(), "0");
    assert_eq!(7u32.to_css_string(), "7");
    assert_eq!(305u32.to_css_string(), "305");
    assert_eq!(4294967295u32.to_css_string(), "4294967295");
}

#[test]
fn font_settings_normal_is_empty() {
    let s: FontSettings<u32> = FontSettings::normal();
    assert!(s.0.is_empty());
}

#[test]
fn font_style_normal_is_oblique_zero() {
    let s: FontStyle<u32> = FontStyle::normal();
    assert!(matches!(s, FontStyle::Oblique(0)));
}

#[test]
fn line_height_normal_is_the_keyword() {
    let h: LineHeight<u32, u32> = LineHeight::normal();
    assert!(matches!(h, LineHeight::Normal));
}

#[test]
fn initial_letter_normal_is_all_zero() {
    let l: InitialLetter<u32, u32> = InitialLetter::normal();
    assert_eq!(l.size, 0);
    assert_eq!(l.sink, 0);
}

#[test]
fn text_indent_zero_has_no_flags() {
    let t: GenericTextIndent<u32> = GenericTextIndent::zero();
    assert_eq!(t.length, 0);
    assert!(!t.hanging);
    assert!(!t.each_line);
}

#[test]
fn font_tag_round_trips_through_its_text() {
    let tag = FontTag::from_tag_bytes(&b"liga".to_vec()).unwrap();
    assert_eq!(tag, FontTag(0x6C696761));
    assert_eq!(tag.to_css_string(), "\"liga\"");
}

#[test]
fn font_tag_rejects_bad_lengths_and_bytes() {
    assert!(FontTag::from_tag_bytes(&b"lig".to_vec()).is_none());
    assert!(FontTag::from_tag_bytes(&b"ligat".to_vec()).is_none());
    assert!(FontTag::from_tag_bytes(&b"li\x1fa".to_vec()).is_none());
    assert!(FontTag::from_tag_bytes(&b"li\x7fa".to_vec()).is_none());
}

#[test]
fn font_tag_with_invalid_utf8_serializes_an_empty_string() {
    // 0xFF can begin no UTF-8 sequence.
    assert_eq!(FontTag(0xFF696761).to_css_string(), "\"\"");
}

#[test]
fn font_tag_with_multibyte_utf8_serializes_its_text() {
    // C3 A9 61 62 encodes a three-character string.
    assert_eq!(FontTag(0xC3A96162).to_css_string(), "\"\u{e9}ab\"");
}

#[test]
fn font_tag_text_is_escaped_as_a_css_string() {
    // A double quote inside the tag is backslash-escaped.
    assert_eq!(FontTag(0x22616263).to_css_string(), "\"\\\"abc\"");
    // A control character becomes a hexadecimal escape closed by a space.
    assert_eq!(FontTag(0x01616263).to_css_string(), "\"\\1 abc\"");
}

#[test]
fn feature_tag_value_hides_the_default_value() {
    let one = FeatureTagValue { tag: FontTag(0x6C696761), value: 1u32 };
    assert_eq!(one.to_css_string(), "\"liga\"");
    let two = FeatureTagValue { tag: FontTag(0x6C696761), value: 2u32 };
    assert_eq!(two.to_css_string(), "\"liga\" 2");
    assert_eq!(one.tag(), FontTag(0x6C696761));
}

#[test]
fn variation_value_carries_its_tag() {
    let v = VariationValue { tag: FontTag(0x77676874), value: 400u32 };
    assert_eq!(v.tag(), FontTag(0x77676874));
}

#[test]
fn font_size_adjust_serializes_with_its_keyword() {
    let none: GenericFontSizeAdjust<u32> = GenericFontSizeAdjust::NoAdjust;
    assert_eq!(none.to_css_string(), "none");
    assert_eq!(GenericFontSizeAdjust::ExHeight(5u32).to_css_string(), "5");
    assert_eq!(GenericFontSizeAdjust::CapHeight(3u32).to_css_string(), "cap-height 3");
    assert_eq!(GenericFontSizeAdjust::ChWidth(4u32).to_css_string(), "ch-width 4");
    assert_eq!(GenericFontSizeAdjust::IcWidth(6u32).to_css_string(), "ic-width 6");
    assert_eq!(GenericFontSizeAdjust::IcHeight(7u32).to_css_string(), "ic-height 7");
}

#[test]
fn number_or_auto_serializes_both_forms() {
    let a: NumberOrAuto<u32> = NumberOrAuto::Auto;
    assert_eq!(a.to_css_string(), "auto");
    assert_eq!(NumberOrAuto::Number(9u32).to_css_string(), "9");
}

#[test]
fn hyphenate_limit_chars_drops_redundant_parts() {
    let all_auto: GenericHyphenateLimitChars<u32> = GenericHyphenateLimitChars {
        total_word_length: NumberOrAuto::Auto,
        pre_hyphen_length: NumberOrAuto::Auto,
        post_hyphen_length: NumberOrAuto::Auto,
    };
    assert_eq!(all_auto.to_css_string(), "auto");
    let total_only = GenericHyphenateLimitChars {
        total_word_length: NumberOrAuto::Number(5u32),
        pre_hyphen_length: NumberOrAuto::Auto,
        post_hyphen_length: NumberOrAuto::Auto,
    };
    assert_eq!(total_only.to_css_string(), "5");
    let pre_set = GenericHyphenateLimitChars {
        total_word_length: NumberOrAuto::Auto,
        pre_hyphen_length: NumberOrAuto::Number(2u32),
        post_hyphen_length: NumberOrAuto::Number(2u32),
    };
    assert_eq!(pre_set.to_css_string(), "auto 2");
    let all_set = GenericHyphenateLimitChars {
        total_word_length: NumberOrAuto::Auto,
        pre_hyphen_length: NumberOrAuto::Number(2u32),
        post_hyphen_length: NumberOrAuto::Number(3u32),
    };
    assert_eq!(all_set.to_css_string(), "auto 2 3");
    let post_only: GenericHyphenateLimitChars<u32> = GenericHyphenateLimitChars {
        total_word_length: NumberOrAuto::Auto,
        pre_hyphen_length: NumberOrAuto::Auto,
        post_hyphen_length: NumberOrAuto::Number(3u32),
    };
    assert_eq!(post_only.to_css_string(), "auto auto 3");
}

#[test]
fn initial_letter_serializes_normal_size_and_sink() {
    let normal: InitialLetter<u32, u32> = InitialLetter { size: 0, sink: 0 };
    assert_eq!(normal.to_css_string(), "normal");
    let sized: InitialLetter<u32, u32> = InitialLetter { size: 3, sink: 0 };
    assert_eq!(sized.to_css_string(), "3");
    let sunk: InitialLetter<u32, u32> = InitialLetter { size: 3, sink: 2 };
    assert_eq!(sunk.to_css_string(), "3 2");
}

#[test]
fn text_decoration_length_has_its_three_forms() {
    let l: GenericTextDecorationLength<u32> = GenericTextDecorationLength::LengthPercentage(4);
    assert!(matches!(l, GenericTextDecorationLength::LengthPercentage(4)));
    let a: GenericTextDecorationLength<u32> = GenericTextDecorationLength::Auto;
    assert!(matches!(a, GenericTextDecorationLength::Auto));
    let f: GenericTextDecorationLength<u32> = GenericTextDecorationLength::FromFont;
    assert!(matches!(f, GenericTextDecorationLength::FromFont));
}
