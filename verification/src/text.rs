//! Generic types for text properties: hyphenation limits, initial letter,
//! text-decoration thickness and text indentation.

use vstd::prelude::*;
use vstd::string::StringExecFns;

use crate::css::{CssValue, Zero};

verus! {

/// A generic value that is either a number or `auto`.
pub enum NumberOrAuto<N> {
    /// `auto`
    Auto,
    /// `<number>`
    Number(N),
}

impl<N: CssValue> NumberOrAuto<N> {
    /// The CSS text: the keyword `auto`, or the number.
    pub open spec fn css_spec(&self) -> Seq<char> {
        match self {
            NumberOrAuto::Auto => "auto"@,
            NumberOrAuto::Number(v) => v.css_spec(),
        }
    }

    /// Serializes the value.
    pub fn to_css_string(&self) -> (r: String)
        ensures
            r@ == self.css_spec(),
    {
        match self {
            NumberOrAuto::Auto => "auto".to_owned(),
            NumberOrAuto::Number(v) => v.to_css_string(),
        }
    }

    /// Whether the two values are equal.
    pub fn eq_value(&self, other: &Self) -> (r: bool)
        ensures
            r == (*self == *other),
    {
        match self {
            NumberOrAuto::Auto => match other {
                NumberOrAuto::Auto => true,
                NumberOrAuto::Number(_) => false,
            },
            NumberOrAuto::Number(a) => match other {
                NumberOrAuto::Auto => false,
                NumberOrAuto::Number(b) => a.eq_value(b),
            },
        }
    }
}

/// A generic value for the `hyphenate-limit-chars` property.
pub struct GenericHyphenateLimitChars<Integer> {
    /// Required minimum number of characters in a hyphenated word.
    pub total_word_length: NumberOrAuto<Integer>,
    /// Required minimum number of characters before the hyphen.
    pub pre_hyphen_length: NumberOrAuto<Integer>,
    /// Required minimum number of characters after the hyphen.
    pub post_hyphen_length: NumberOrAuto<Integer>,
}

impl<Integer: CssValue> GenericHyphenateLimitChars<Integer> {
    /// The CSS text: the total length, then the pre- and post-hyphen
    /// lengths only as far as they say more than their defaults.
    pub open spec fn css_spec(&self) -> Seq<char> {
        self.total_word_length.css_spec() + if !(self.pre_hyphen_length is Auto)
            || self.post_hyphen_length != self.pre_hyphen_length {
            " "@ + self.pre_hyphen_length.css_spec() + if self.post_hyphen_length
                != self.pre_hyphen_length {
                " "@ + self.post_hyphen_length.css_spec()
            } else {
                Seq::<char>::empty()
            }
        } else {
            Seq::<char>::empty()
        }
    }

    /// Serializes the value, leaving out redundant components.
    pub fn to_css_string(&self) -> (r: String)
        ensures
            r@ == self.css_spec(),
    {
        let mut s = self.total_word_length.to_css_string();
        let pre_is_auto = match self.pre_hyphen_length {
            NumberOrAuto::Auto => true,
            NumberOrAuto::Number(_) => false,
        };
        let post_eq_pre = self.post_hyphen_length.eq_value(&self.pre_hyphen_length);
        if !pre_is_auto || !post_eq_pre {
            s.append(" ");
            let pre = self.pre_hyphen_length.to_css_string();
            s.append(pre.as_str());
            if !post_eq_pre {
                s.append(" ");
                let post = self.post_hyphen_length.to_css_string();
                s.append(post.as_str());
            }
        }
        s
    }
}

/// A generic value for the `initial-letter` property: a size, zero meaning
/// `normal`, and a sink, zero meaning unspecified.
pub struct GenericInitialLetter<Number, Integer> {
    /// The size, or zero if `normal`.
    pub size: Number,
    /// The sink, if specified, zero otherwise.
    pub sink: Integer,
}

pub use self::GenericInitialLetter as InitialLetter;

impl<N: Zero, I: Zero> GenericInitialLetter<N, I> {
    /// The `normal` value: size and sink both zero.
    pub fn normal() -> (r: Self)
        ensures
            r.size == N::zero_spec(),
            r.sink == I::zero_spec(),
    {
        GenericInitialLetter { size: N::zero(), sink: I::zero() }
    }
}

impl<N: Zero + CssValue, I: Zero + CssValue> GenericInitialLetter<N, I> {
    /// The CSS text: `normal` for a zero size, else the size, then the
    /// sink when it is given.
    pub open spec fn css_spec(&self) -> Seq<char> {
        if self.size == N::zero_spec() {
            "normal"@
        } else {
            self.size.css_spec() + if self.sink == I::zero_spec() {
                Seq::<char>::empty()
            } else {
                " "@ + self.sink.css_spec()
            }
        }
    }

    /// Serializes the value.
    pub fn to_css_string(&self) -> (r: String)
        ensures
            r@ == self.css_spec(),
    {
        if self.size.is_zero() {
            return "normal".to_owned();
        }
        let mut s = self.size.to_css_string();
        if !self.sink.is_zero() {
            s.append(" ");
            let sink = self.sink.to_css_string();
            s.append(sink.as_str());
        }
        s
    }
}

/// A generic value for text-decoration thickness:
/// `auto | from-font | <length> | <percentage>`.
pub enum GenericTextDecorationLength<L> {
    LengthPercentage(L),
    Auto,
    FromFont,
}

/// A generic value for the `text-indent` property:
/// `[<length-percentage>] && hanging? && each-line?`.
pub struct GenericTextIndent<LengthPercentage> {
    /// The amount of indent to be applied to the inline-start of the
    /// first line.
    pub length: LengthPercentage,
    /// Apply indent to non-first lines instead of first.
    pub hanging: bool,
    /// Apply to each line after a hard break, not only first in block.
    pub each_line: bool,
}

impl<LengthPercentage: Zero> GenericTextIndent<LengthPercentage> {
    /// The initial zero value: no indent, no flags.
    pub fn zero() -> (r: Self)
        ensures
            r.length == LengthPercentage::zero_spec(),
            !r.hanging,
            !r.each_line,
    {
        GenericTextIndent { length: LengthPercentage::zero(), hanging: false, each_line: false }
    }
}

} // verus!
