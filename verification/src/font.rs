//! Generic types for font values: tags, feature and variation settings,
//! font style, size adjustment and line height.

use vstd::prelude::*;
use vstd::string::StringExecFns;
use vstd::utf8::{decode_utf8, valid_utf8};

use crate::css::{CssValue, One, Zero, css_quoted, serialize_css_string, utf8_string_or_empty};

verus! {

/// A font four-character tag, packed into a `u32`, one byte per character,
/// most significant byte first.
#[derive(Clone, Copy, Debug, PartialEq, Eq, Hash, Structural)]
pub struct FontTag(pub u32);

/// A value labelled with a `FontTag`, for feature and variation settings.
pub trait TaggedFontValue {
    /// The value's tag.
    spec fn tag_spec(&self) -> FontTag;

    /// Returns the value's tag.
    fn tag(&self) -> (r: FontTag)
        ensures
            r == self.tag_spec(),
    ;
}

/// The four bytes of a tag, most significant first.
pub open spec fn font_tag_bytes(t: u32) -> Seq<u8> {
    seq![
        ((t / 0x1000000) % 0x100) as u8,
        ((t / 0x10000) % 0x100) as u8,
        ((t / 0x100) % 0x100) as u8,
        (t % 0x100) as u8,
    ]
}

/// The CSS text of a tag: a double-quoted CSS string holding the text
/// that the tag's four bytes encode as UTF-8, or holding nothing when
/// they are not valid UTF-8.
pub open spec fn font_tag_css(t: u32) -> Seq<char> {
    css_quoted(
        if valid_utf8(font_tag_bytes(t)) {
            decode_utf8(font_tag_bytes(t))
        } else {
            Seq::empty()
        },
    )
}

impl FontTag {
    /// Serializes the tag as a quoted CSS string of its four characters,
    /// empty when its bytes are not valid UTF-8.
    pub fn to_css_string(&self) -> (r: String)
        ensures
            r@ == font_tag_css(self.0),
    {
        let mut v: Vec<u8> = Vec::new();
        v.push(((self.0 / 0x1000000) % 0x100) as u8);
        v.push(((self.0 / 0x10000) % 0x100) as u8);
        v.push(((self.0 / 0x100) % 0x100) as u8);
        v.push((self.0 % 0x100) as u8);
        proof {
            assert(v@ =~= font_tag_bytes(self.0));
        }
        let content = utf8_string_or_empty(v);
        serialize_css_string(content.as_str())
    }

    /// Reads a tag from its four-character form: accepted exactly when it
    /// holds four bytes, each a printable ASCII character.
    pub fn from_tag_bytes(bytes: &Vec<u8>) -> (r: Option<FontTag>)
        ensures
            r is Some <==> (bytes@.len() == 4 && forall|k: int|
                0 <= k < 4 ==> 0x20 <= #[trigger] bytes@[k] <= 0x7e),
            r matches Some(t) ==> t.0 == bytes@[0] * 0x1000000 + bytes@[1] * 0x10000 + bytes@[2]
                * 0x100 + bytes@[3],
    {
        if bytes.len() != 4 {
            return None;
        }
        let b0 = bytes[0];
        let b1 = bytes[1];
        let b2 = bytes[2];
        let b3 = bytes[3];
        if b0 < 0x20 || b0 > 0x7e || b1 < 0x20 || b1 > 0x7e || b2 < 0x20 || b2 > 0x7e || b3 < 0x20
            || b3 > 0x7e {
            return None;
        }
        Some(FontTag((b0 as u32) * 0x1000000 + (b1 as u32) * 0x10000 + (b2 as u32) * 0x100 + (
        b3 as u32)))
    }
}

/// A feature-tag value: a tag and its integer value.
pub struct FeatureTagValue<Integer> {
    /// A four-character tag, packed into a u32, one byte per character.
    pub tag: FontTag,
    /// The actual value.
    pub value: Integer,
}

impl<T> TaggedFontValue for FeatureTagValue<T> {
    open spec fn tag_spec(&self) -> FontTag {
        self.tag
    }

    fn tag(&self) -> FontTag {
        self.tag
    }
}

impl<Integer: One + CssValue> FeatureTagValue<Integer> {
    /// The CSS text: the tag, then the value unless it is the default one.
    pub open spec fn css_spec(&self) -> Seq<char> {
        font_tag_css(self.tag.0) + if self.value == Integer::one_spec() {
            Seq::<char>::empty()
        } else {
            " "@ + self.value.css_spec()
        }
    }

    /// Serializes the setting, leaving out the default value of one.
    pub fn to_css_string(&self) -> (r: String)
        ensures
            r@ == self.css_spec(),
    {
        let mut s = self.tag.to_css_string();
        if !self.value.is_one() {
            s.append(" ");
            let v = self.value.to_css_string();
            s.append(v.as_str());
        }
        s
    }
}

/// A variation setting for a single axis: a tag and its value.
pub struct VariationValue<Number> {
    /// A four-character tag, packed into a u32, one byte per character.
    pub tag: FontTag,
    /// The actual value.
    pub value: Number,
}

impl<T> TaggedFontValue for VariationValue<T> {
    open spec fn tag_spec(&self) -> FontTag {
        self.tag
    }

    fn tag(&self) -> FontTag {
        self.tag
    }
}

/// A value both for font-variation-settings and font-feature-settings: a
/// list of settings, empty meaning `normal`.
pub struct FontSettings<T>(pub Vec<T>);

impl<T> FontSettings<T> {
    /// The default value of font settings, `normal`: no settings at all.
    pub fn normal() -> (r: Self)
        ensures
            r.0@ == Seq::<T>::empty(),
    {
        FontSettings(Vec::new())
    }
}

/// A generic value for the `font-style` property: `oblique 0deg`
/// represents `normal`.
pub enum FontStyle<Angle> {
    Oblique(Angle),
    Italic,
}

impl<Angle: Zero> FontStyle<Angle> {
    /// The `normal` value, represented as oblique at angle zero.
    pub fn normal() -> (r: Self)
        ensures
            r == FontStyle::<Angle>::Oblique(Angle::zero_spec()),
    {
        FontStyle::Oblique(Angle::zero())
    }
}

/// A generic value for the `font-size-adjust` property.
pub enum GenericFontSizeAdjust<Factor> {
    NoAdjust,
    ExHeight(Factor),
    CapHeight(Factor),
    ChWidth(Factor),
    IcWidth(Factor),
    IcHeight(Factor),
}

impl<Factor: CssValue> GenericFontSizeAdjust<Factor> {
    /// The CSS text: the keyword `none`, or the metric's keyword followed
    /// by the factor, the default `ex-height` metric being left implicit.
    pub open spec fn css_spec(&self) -> Seq<char> {
        match self {
            GenericFontSizeAdjust::NoAdjust => "none"@,
            GenericFontSizeAdjust::ExHeight(v) => v.css_spec(),
            GenericFontSizeAdjust::CapHeight(v) => "cap-height "@ + v.css_spec(),
            GenericFontSizeAdjust::ChWidth(v) => "ch-width "@ + v.css_spec(),
            GenericFontSizeAdjust::IcWidth(v) => "ic-width "@ + v.css_spec(),
            GenericFontSizeAdjust::IcHeight(v) => "ic-height "@ + v.css_spec(),
        }
    }

    /// Serializes the value.
    pub fn to_css_string(&self) -> (r: String)
        ensures
            r@ == self.css_spec(),
    {
        match self {
            GenericFontSizeAdjust::NoAdjust => "none".to_owned(),
            GenericFontSizeAdjust::ExHeight(v) => v.to_css_string(),
            GenericFontSizeAdjust::CapHeight(v) => {
                let mut s = "cap-height ".to_owned();
                let t = v.to_css_string();
                s.append(t.as_str());
                s
            },
            GenericFontSizeAdjust::ChWidth(v) => {
                let mut s = "ch-width ".to_owned();
                let t = v.to_css_string();
                s.append(t.as_str());
                s
            },
            GenericFontSizeAdjust::IcWidth(v) => {
                let mut s = "ic-width ".to_owned();
                let t = v.to_css_string();
                s.append(t.as_str());
                s
            },
            GenericFontSizeAdjust::IcHeight(v) => {
                let mut s = "ic-height ".to_owned();
                let t = v.to_css_string();
                s.append(t.as_str());
                s
            },
        }
    }
}

/// A generic value for the `line-height` property.
pub enum GenericLineHeight<N, L> {
    /// `normal`
    Normal,
    /// `-moz-block-height`
    MozBlockHeight,
    /// `<number>`
    Number(N),
    /// `<length-percentage>`
    Length(L),
}

pub use self::GenericLineHeight as LineHeight;

impl<N, L> GenericLineHeight<N, L> {
    /// The `normal` value.
    pub fn normal() -> (r: Self)
        ensures
            r == GenericLineHeight::<N, L>::Normal,
    {
        GenericLineHeight::Normal
    }
}

} // verus!
