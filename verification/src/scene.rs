//! What is drawn, as a list of commands.
//!
//! The painters decide what stands where and in which colour; a renderer
//! replays the list. Commands are drawn in their order, later ones on top.

use vstd::prelude::*;

use crate::inspector::model::types::Face;
use crate::px::Rect;

verus! {

/// A colour with its opacity.
#[derive(Debug, Clone, Copy, PartialEq, Eq, Structural)]
pub struct Rgba {
    pub r: u8,
    pub g: u8,
    pub b: u8,
    pub a: u8,
}

/// The colours of the browser's own surfaces.
#[derive(Debug, Clone, Copy, PartialEq, Eq, Structural)]
pub struct ChromePalette {
    pub bar_bg: Rgba,
    pub strip_bg: Rgba,
    pub tab_active_bg: Rgba,
    pub tab_inactive_bg: Rgba,
    pub tab_text: Rgba,
    pub tab_text_inactive: Rgba,
    pub tab_close_glyph: Rgba,
    pub btn_bg: Rgba,
    pub btn_text: Rgba,
    pub btn_bg_disabled: Rgba,
    pub btn_text_disabled: Rgba,
    pub url_bg: Rgba,
    pub url_border_focused: Rgba,
    pub url_border_idle: Rgba,
    pub url_text: Rgba,
    pub select: Rgba,
    pub cursor: Rgba,
    pub ok_dot: Rgba,
    pub err_text: Rgba,
}

/// How text is set.
#[derive(Debug, Clone, Copy, PartialEq, Eq, Structural)]
pub enum TextStyle {
    /// The chrome bar: monospace, twelve pixels.
    Chrome,
    /// The history sidebar's titles: sans, twelve pixels.
    Title,
    /// The history sidebar's labels: sans, ten and a half pixels.
    Small,
    /// The history sidebar's addresses: monospace, ten and a half pixels.
    Address,
    /// The inspector.
    Panel(Face),
}

/// An icon of the toolbar.
#[derive(Debug, Clone, Copy, PartialEq, Eq, Structural)]
pub enum Icon {
    Back,
    Forward,
    Reload,
    History,
}

/// A small drawn mark.
#[derive(Debug, Clone, Copy, PartialEq, Eq, Structural)]
pub enum Mark {
    /// The element picker's crosshair.
    Picker,
    /// The cross that closes.
    Close,
    /// A disclosure triangle that points down.
    Expanded,
    /// A disclosure triangle that points right.
    Collapsed,
}

/// One drawing command. Lengths are in 64ths of a logical pixel.
#[derive(Debug, Clone)]
pub enum Draw {
    /// Fills a rectangle.
    Fill { rect: Rect, color: Rgba },
    /// Fills a rectangle with rounded corners.
    FillRound { rect: Rect, radius: i64, color: Rgba },
    /// Outlines a rectangle.
    Outline { rect: Rect, width: i64, color: Rgba },
    /// Outlines a rectangle with rounded corners.
    OutlineRound { rect: Rect, radius: i64, width: i64, color: Rgba },
    /// Fills a circle.
    Dot { cx: i64, cy: i64, radius: i64, color: Rgba },
    /// Writes one line of text with its top left corner at a point. `percent`
    /// is how much of the colour's opacity is kept.
    Text { text: String, style: TextStyle, x: i64, y: i64, color: Rgba, percent: u8 },
    /// Writes text, wrapped to a width.
    Wrapped { text: String, style: TextStyle, x: i64, y: i64, max_width: i64, color: Rgba },
    /// Draws a toolbar icon into a square.
    Icon { icon: Icon, x: i64, y: i64, size: i64, color: Rgba },
    /// Draws a mark around a point.
    Mark { mark: Mark, cx: i64, cy: i64, color: Rgba },
    /// What follows is drawn inside a rectangle only.
    PushClip { rect: Rect },
    /// Ends the last such part.
    PopClip,
}

/// What a command draws.
#[verifier::ext_equal]
pub enum DrawView {
    Fill { rect: Rect, color: Rgba },
    FillRound { rect: Rect, radius: i64, color: Rgba },
    Outline { rect: Rect, width: i64, color: Rgba },
    OutlineRound { rect: Rect, radius: i64, width: i64, color: Rgba },
    Dot { cx: i64, cy: i64, radius: i64, color: Rgba },
    Text { text: Seq<char>, style: TextStyle, x: i64, y: i64, color: Rgba, percent: u8 },
    Wrapped { text: Seq<char>, style: TextStyle, x: i64, y: i64, max_width: i64, color: Rgba },
    Icon { icon: Icon, x: i64, y: i64, size: i64, color: Rgba },
    Mark { mark: Mark, cx: i64, cy: i64, color: Rgba },
    PushClip { rect: Rect },
    PopClip,
}

impl View for Draw {
    type V = DrawView;

    open spec fn view(&self) -> DrawView {
        match *self {
            Draw::Fill { rect, color } => DrawView::Fill { rect, color },
            Draw::FillRound { rect, radius, color } => DrawView::FillRound { rect, radius, color },
            Draw::Outline { rect, width, color } => DrawView::Outline { rect, width, color },
            Draw::OutlineRound { rect, radius, width, color } => DrawView::OutlineRound {
                rect,
                radius,
                width,
                color,
            },
            Draw::Dot { cx, cy, radius, color } => DrawView::Dot { cx, cy, radius, color },
            Draw::Text { text, style, x, y, color, percent } => DrawView::Text {
                text: text@,
                style,
                x,
                y,
                color,
                percent,
            },
            Draw::Wrapped { text, style, x, y, max_width, color } => DrawView::Wrapped {
                text: text@,
                style,
                x,
                y,
                max_width,
                color,
            },
            Draw::Icon { icon, x, y, size, color } => DrawView::Icon { icon, x, y, size, color },
            Draw::Mark { mark, cx, cy, color } => DrawView::Mark { mark, cx, cy, color },
            Draw::PushClip { rect } => DrawView::PushClip { rect },
            Draw::PopClip => DrawView::PopClip,
        }
    }
}

/// A list of commands.
#[derive(Debug, Clone)]
pub struct Scene {
    pub items: Vec<Draw>,
}

impl View for Scene {
    type V = Seq<DrawView>;

    open spec fn view(&self) -> Seq<DrawView> {
        self.items@.map_values(|d: Draw| d@)
    }
}

/// A rectangle by its edges.
pub open spec fn area(x0: int, y0: int, x1: int, y1: int) -> Rect {
    Rect { x0: x0 as i64, y0: y0 as i64, x1: x1 as i64, y1: y1 as i64 }
}

/// A rectangle filled with a colour.
pub open spec fn filled(x0: int, y0: int, x1: int, y1: int, color: Rgba) -> DrawView {
    DrawView::Fill { rect: area(x0, y0, x1, y1), color }
}

/// A line of text.
pub open spec fn written(
    text: Seq<char>,
    style: TextStyle,
    x: int,
    y: int,
    color: Rgba,
) -> DrawView {
    DrawView::Text { text, style, x: x as i64, y: y as i64, color, percent: 100 }
}

/// A command, if a condition holds.
pub open spec fn drawn_if(c: bool, d: DrawView) -> Seq<DrawView> {
    if c {
        seq![d]
    } else {
        Seq::empty()
    }
}

impl Scene {
    /// A scene that draws nothing.
    pub fn new() -> (s: Scene)
        ensures
            s@ == Seq::<DrawView>::empty(),
    {
        let s = Scene { items: Vec::new() };
        proof {
            assert(s@ =~= Seq::<DrawView>::empty());
        }
        s
    }

    /// Adds a command.
    pub fn push(&mut self, d: Draw)
        ensures
            final(self)@ == old(self)@.push(d@),
    {
        self.items.push(d);
        proof {
            assert(self@ =~= old(self)@.push(d@));
        }
    }

    /// Fills the rectangle between the edges.
    pub fn fill(&mut self, x0: i64, y0: i64, x1: i64, y1: i64, color: Rgba)
        ensures
            final(self)@ == old(self)@.push(
                filled(x0 as int, y0 as int, x1 as int, y1 as int, color),
            ),
    {
        self.push(Draw::Fill { rect: Rect { x0, y0, x1, y1 }, color });
    }

    /// Writes a line of text.
    pub fn write(&mut self, text: String, style: TextStyle, x: i64, y: i64, color: Rgba)
        ensures
            final(self)@ == old(self)@.push(written(text@, style, x as int, y as int, color)),
    {
        self.push(Draw::Text { text, style, x, y, color, percent: 100 });
    }
}

/// A colour with another opacity.
pub open spec fn faded_color(color: Rgba, alpha: u8) -> Rgba {
    Rgba { r: color.r, g: color.g, b: color.b, a: alpha }
}

/// A colour with another opacity, for hairlines and guides.
pub fn faded(color: Rgba, alpha: u8) -> (r: Rgba)
    ensures
        r == faded_color(color, alpha),
{
    Rgba { r: color.r, g: color.g, b: color.b, a: alpha }
}

} // verus!
