//! Style rules as the style sheet declares them.

use vstd::hash_map::StringHashMap;
use vstd::prelude::*;

verus! {

/// A colour with its opacity.
#[derive(Debug, Clone, Copy, PartialEq, Eq, Structural)]
pub struct MizuColor {
    pub r: u8,
    pub g: u8,
    pub b: u8,
    pub a: u8,
}

/// A length; its number is kept in its printed form.
#[derive(Debug, Clone)]
pub enum MizuDimension {
    Pixels(String),
    Percent(String),
    ViewportWidth(String),
    ViewportHeight(String),
    ViewportMin(String),
    ViewportMax(String),
}

/// What an element is filled with.
#[derive(Debug, Clone)]
pub enum MizuBackground {
    /// One colour.
    Solid(MizuColor),
    /// A gradient at an angle, kept in its printed form.
    LinearGradient { angle: String, start: MizuColor, end: MizuColor },
}

/// The declarations of one rule. Keywords are kept by the name of the variant
/// that the parser chose, numbers in their printed form.
#[derive(Debug, Clone)]
pub struct StyleRules {
    pub width: Option<MizuDimension>,
    pub height: Option<MizuDimension>,
    pub padding: Option<MizuDimension>,
    pub margin: Option<MizuDimension>,
    pub gap: Option<MizuDimension>,
    pub flex_direction: Option<String>,
    pub justify: Option<String>,
    pub align: Option<String>,
    pub background: Option<MizuBackground>,
    pub background_image: Option<String>,
    pub color: Option<MizuColor>,
    pub font_size: Option<String>,
    pub border_radius: Option<String>,
    pub border_width: Option<String>,
    pub border_color: Option<MizuColor>,
    pub z_index: i32,
}

impl Default for StyleRules {
    fn default() -> (r: StyleRules)
        ensures
            r.width is None && r.height is None && r.padding is None && r.margin is None && r.gap is None,
            r.flex_direction is None && r.justify is None && r.align is None,
            r.background is None && r.background_image is None && r.color is None,
            r.font_size is None && r.border_radius is None && r.border_width is None,
            r.border_color is None && r.z_index == 0,
    {
        StyleRules {
            width: None,
            height: None,
            padding: None,
            margin: None,
            gap: None,
            flex_direction: None,
            justify: None,
            align: None,
            background: None,
            background_image: None,
            color: None,
            font_size: None,
            border_radius: None,
            border_width: None,
            border_color: None,
            z_index: 0,
        }
    }
}

/// The rules of a document, by tag or class.
pub struct StyleSheet {
    rules: StringHashMap<StyleRules>,
}

impl View for StyleSheet {
    type V = Map<Seq<char>, StyleRules>;

    closed spec fn view(&self) -> Map<Seq<char>, StyleRules> {
        self.rules@
    }
}

impl StyleSheet {
    /// A sheet without rules.
    pub fn new() -> (s: StyleSheet)
        ensures
            s@ == Map::<Seq<char>, StyleRules>::empty(),
    {
        StyleSheet { rules: StringHashMap::new() }
    }

    /// Sets the rule of a tag or class.
    pub fn insert(&mut self, selector: String, rules: StyleRules)
        ensures
            final(self)@ == old(self)@.insert(selector@, rules),
    {
        self.rules.insert(selector, rules);
    }

    /// The rule of a tag or class.
    pub fn get(&self, selector: &str) -> (r: Option<&StyleRules>)
        ensures
            r == (if self@.contains_key(selector@) {
                Some(&self@[selector@])
            } else {
                None
            }),
    {
        self.rules.get(selector)
    }
}

} // verus!
