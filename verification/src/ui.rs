//! The plain data types the element layer composes the rendering core with:
//! integer rectangles, the modal dialog description and its buttons, window
//! configuration, and the positioning capability interfaces.

use crate::color::Color;
use vstd::prelude::*;

verus! {

/// An integer rectangle: position and size in pixels. Not self-validating;
/// a negative width or height is the caller's error.
#[derive(Debug, Clone, Copy, PartialEq, Eq, Structural)]
pub struct Rect {
    pub x: i32,
    pub y: i32,
    pub width: i32,
    pub height: i32,
}

impl Rect {
    /// A rectangle from its position and size.
    pub fn new(x: i32, y: i32, width: i32, height: i32) -> (r: Rect)
        ensures
            r == (Rect { x, y, width, height }),
    {
        Rect { x, y, width, height }
    }
}

/// A capability of elements that can be placed and sized.
pub trait Positioned {
    /// The element moved to (x, y).
    fn at(self, x: i32, y: i32) -> Self;

    /// The element resized to the given size.
    fn size(self, width: i32, height: i32) -> Self;

    /// The element moved and resized in one step.
    fn frame(self, x: i32, y: i32, width: i32, height: i32) -> Self;
}

/// A capability of elements that carry spacing.
pub trait Layout {
    /// The element with the given inner padding.
    fn padding(self, padding: i32) -> Self;

    /// The element with the given outer margin.
    fn margin(self, margin: i32) -> Self;
}

impl Positioned for Rect {
    fn at(self, x: i32, y: i32) -> (r: Self)
        ensures
            r == (Rect { x, y, width: self.width, height: self.height }),
    {
        Rect { x, y, width: self.width, height: self.height }
    }

    fn size(self, width: i32, height: i32) -> (r: Self)
        ensures
            r == (Rect { x: self.x, y: self.y, width, height }),
    {
        Rect { x: self.x, y: self.y, width, height }
    }

    fn frame(self, x: i32, y: i32, width: i32, height: i32) -> (r: Self)
        ensures
            r == (Rect { x, y, width, height }),
    {
        Rect { x, y, width, height }
    }
}

/// How prominent a dialog button is drawn.
#[derive(Debug, Clone, Copy, PartialEq, Eq, Structural)]
pub enum DialogButtonStyle {
    Primary,
    Secondary,
    Destructive,
}

/// One button of a modal dialog: its label, its style, and the rectangle the
/// dialog's layout assigns it.
pub struct DialogButton {
    pub label: String,
    pub style: DialogButtonStyle,
    pub rect: Rect,
}

impl DialogButton {
    /// A button with the given label and style; its rectangle is set by the
    /// dialog layout later.
    pub fn new(label: String, style: DialogButtonStyle) -> (b: DialogButton)
        ensures
            b.label@ == label@,
            b.style == style,
            b.rect == (Rect { x: 0, y: 0, width: 0, height: 0 }),
    {
        DialogButton { label, style, rect: Rect { x: 0, y: 0, width: 0, height: 0 } }
    }

    /// The fill color a button of this style is drawn with.
    pub fn background_color(&self) -> (c: Color)
        ensures
            c == match self.style {
                DialogButtonStyle::Primary => Color { r: 0, g: 122, b: 255, a: 255 },
                DialogButtonStyle::Secondary => Color { r: 200, g: 200, b: 200, a: 255 },
                DialogButtonStyle::Destructive => Color { r: 255, g: 59, b: 48, a: 255 },
            },
    {
        match self.style {
            DialogButtonStyle::Primary => Color { r: 0, g: 122, b: 255, a: 255 },
            DialogButtonStyle::Secondary => Color { r: 200, g: 200, b: 200, a: 255 },
            DialogButtonStyle::Destructive => Color { r: 255, g: 59, b: 48, a: 255 },
        }
    }

    /// The label color a button of this style is drawn with.
    pub fn text_color(&self) -> (c: Color)
        ensures
            c == match self.style {
                DialogButtonStyle::Primary => Color { r: 255, g: 255, b: 255, a: 255 },
                DialogButtonStyle::Secondary => Color { r: 60, g: 60, b: 60, a: 255 },
                DialogButtonStyle::Destructive => Color { r: 255, g: 255, b: 255, a: 255 },
            },
    {
        match self.style {
            DialogButtonStyle::Primary => Color { r: 255, g: 255, b: 255, a: 255 },
            DialogButtonStyle::Secondary => Color { r: 60, g: 60, b: 60, a: 255 },
            DialogButtonStyle::Destructive => Color { r: 255, g: 255, b: 255, a: 255 },
        }
    }
}

/// A modal dialog description: a title, a message, an optional icon glyph,
/// and an ordered row of buttons, over a rounded light background.
pub struct Dialog {
    pub rect: Rect,
    pub title: String,
    pub message: String,
    pub icon: Option<String>,
    pub buttons: Vec<DialogButton>,
    pub background: Color,
    pub corner_radius: i32,
    pub padding: i32,
}

impl Dialog {
    /// A dialog with the given title and message, at the default size and
    /// styling, with no icon and no buttons yet.
    pub fn new(title: String, message: String) -> (d: Dialog)
        ensures
            d.rect == (Rect { x: 0, y: 0, width: 380, height: 310 }),
            d.title@ == title@,
            d.message@ == message@,
            d.icon is None,
            d.buttons@.len() == 0,
            d.background == (Color { r: 242, g: 242, b: 247, a: 255 }),
            d.corner_radius == 14,
            d.padding == 20,
    {
        Dialog {
            rect: Rect { x: 0, y: 0, width: 380, height: 310 },
            title,
            message,
            icon: Option::None,
            buttons: Vec::new(),
            background: Color { r: 242, g: 242, b: 247, a: 255 },
            corner_radius: 14,
            padding: 20,
        }
    }

    /// The dialog with an icon glyph.
    pub fn icon(self, icon: String) -> (d: Dialog)
        ensures
            d.icon is Some,
            d.icon->0@ == icon@,
            d.rect == self.rect,
            d.title == self.title,
            d.message == self.message,
            d.buttons == self.buttons,
            d.background == self.background,
            d.corner_radius == self.corner_radius,
            d.padding == self.padding,
    {
        Dialog { icon: Option::Some(icon), ..self }
    }

    /// The dialog with one more button appended.
    pub fn button(self, button: DialogButton) -> (d: Dialog)
        ensures
            d.buttons@ == self.buttons@.push(button),
            d.rect == self.rect,
            d.title == self.title,
            d.message == self.message,
            d.icon == self.icon,
            d.background == self.background,
            d.corner_radius == self.corner_radius,
            d.padding == self.padding,
    {
        let mut d = self;
        d.buttons.push(button);
        d
    }

    /// The dialog centered on a canvas of the given size: half the slack on
    /// each side, the quotient taken toward zero as machine division does.
    pub fn centered(self, canvas_width: i32, canvas_height: i32) -> (d: Dialog)
        requires
            (i32::MIN as int) < (canvas_width as int) - (self.rect.width as int),
            (i32::MIN as int) < (canvas_height as int) - (self.rect.height as int),
            canvas_width as int - self.rect.width as int <= i32::MAX as int,
            canvas_height as int - self.rect.height as int <= i32::MAX as int,
        ensures
            d.rect.x as int == half_toward_zero(
                canvas_width as int - self.rect.width as int,
            ),
            d.rect.y as int == half_toward_zero(
                canvas_height as int - self.rect.height as int,
            ),
            d.rect.width == self.rect.width,
            d.rect.height == self.rect.height,
            d.title == self.title,
            d.message == self.message,
            d.icon == self.icon,
            d.buttons == self.buttons,
            d.background == self.background,
            d.corner_radius == self.corner_radius,
            d.padding == self.padding,
    {
        let mut d = self;
        let dx: i32 = canvas_width - d.rect.width;
        let dy: i32 = canvas_height - d.rect.height;
        let nx: i32 = if dx >= 0 {
            dx / 2
        } else {
            -((-dx) / 2)
        };
        let ny: i32 = if dy >= 0 {
            dy / 2
        } else {
            -((-dy) / 2)
        };
        d.rect.x = nx;
        d.rect.y = ny;
        d
    }
}

/// Half of a value with the quotient taken toward zero, as machine integer
/// division takes it: -5 halves to -2, not -3.
pub open spec fn half_toward_zero(v: int) -> int {
    if v >= 0 {
        v / 2
    } else {
        -((-v) / 2)
    }
}

/// A dialog with the given title and message.
pub fn dialog(title: String, message: String) -> (d: Dialog)
    ensures
        d.rect == (Rect { x: 0, y: 0, width: 380, height: 310 }),
        d.title@ == title@,
        d.message@ == message@,
        d.icon is None,
        d.buttons@.len() == 0,
        d.background == (Color { r: 242, g: 242, b: 247, a: 255 }),
        d.corner_radius == 14,
        d.padding == 20,
{
    Dialog::new(title, message)
}

/// What a window is created with: its title, size, minimum size, and whether
/// the system draws decorations.
pub struct WindowConfig {
    pub title: String,
    pub width: u32,
    pub height: u32,
    pub min_width: Option<u32>,
    pub min_height: Option<u32>,
    pub decorations: bool,
}

impl Default for WindowConfig {
    /// The customary defaults: an 800 by 600 window with a 400 by 300
    /// minimum and client-side decorations.
    fn default() -> (c: Self)
        ensures
            c.title@ == Seq::<char>::empty(),
            c.width == 800,
            c.height == 600,
            c.min_width == Option::Some(400u32),
            c.min_height == Option::Some(300u32),
            c.decorations == false,
    {
        WindowConfig {
            title: String::new(),
            width: 800,
            height: 600,
            min_width: Option::Some(400),
            min_height: Option::Some(300),
            decorations: false,
        }
    }
}

} // verus!
