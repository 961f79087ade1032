//! State of a panel: how small its applets may shrink, how applets ask to be
//! clicked on hover, which surface the pointer is over, and the margins that
//! place the panel on its output edge.

use vstd::prelude::*;
use std::str::FromStr;

verus! {

/// The smallest size an applet may be shrunk to: a number of applet units or
/// a number of pixels.
#[derive(Clone, Copy, Debug, PartialEq, Eq, Structural)]
pub enum ClientShrinkSize {
    AppletUnit(u32),
    Pixel(u32),
}

/// The pixels of a shrink size, for applets of size `applet_size`: a unit is
/// an applet with a margin of four pixels around the whole and four between
/// units.
pub open spec fn shrink_pixels(size: ClientShrinkSize, applet_size: u32) -> int {
    match size {
        ClientShrinkSize::AppletUnit(units) => 4 + applet_size * units + 4 * (if units >= 1 {
            units - 1
        } else {
            0
        }),
        ClientShrinkSize::Pixel(pixels) => pixels as int,
    }
}

impl ClientShrinkSize {
    pub fn to_pixels(&self, applet_size: u32) -> (px: u32)
        requires
            shrink_pixels(*self, applet_size) <= u32::MAX,
        ensures
            px == shrink_pixels(*self, applet_size),
    {
        match self {
            ClientShrinkSize::AppletUnit(units) => {
                proof {
                    let u = *units as int;
                    let a = applet_size as int;
                    assert(0 <= a * u) by (nonlinear_arith)
                        requires
                            0 <= a,
                            0 <= u,
                    ;
                }
                4 + applet_size * units + 4 * units.saturating_sub(1)
            },
            ClientShrinkSize::Pixel(pixels) => *pixels,
        }
    }
}

/// The edge or point of an applet that is pressed when the pointer hovers it
/// while another popup is open.
#[derive(Clone, Copy, Debug, PartialEq, Eq, Structural)]
pub enum AppletAutoClickAnchor {
    Auto,
    Left,
    Right,
    Top,
    Bottom,
    Center,
    Start,
    End,
}

impl Default for AppletAutoClickAnchor {
    fn default() -> (a: Self)
        ensures
            a == AppletAutoClickAnchor::Auto,
    {
        AppletAutoClickAnchor::Auto
    }
}

/// A character with ASCII upper-case letters made lower-case.
pub open spec fn ascii_lower(c: char) -> char {
    if 'A' <= c && c <= 'Z' {
        ((c as u32) + 32) as char
    } else {
        c
    }
}

/// Whether `c` is `d` once ASCII upper-case letters are made lower-case.
fn lower_matches(c: char, d: char) -> (res: bool)
    ensures
        res == (ascii_lower(c) == d),
{
    if 'A' <= c && c <= 'Z' {
        let u = c as u32;
        let l = d as u32;
        proof {
            assert(ascii_lower(c) == ((u + 32) as char));
            assert((((u + 32) as char) as u32) == u + 32);
        }
        u + 32 == l
    } else {
        c == d
    }
}

/// Whether `s`, with its ASCII upper-case letters made lower-case, is
/// `name`: the comparison `str::to_ascii_lowercase` then `==` makes.
fn lower_eq(s: &str, name: &str) -> (res: bool)
    ensures
        res == (s@.map_values(|c: char| ascii_lower(c)) == name@),
{
    let n = s.unicode_len();
    let m = name.unicode_len();
    let ghost l = s@.map_values(|c: char| ascii_lower(c));
    if n != m {
        proof { assert(l.len() != name@.len()); }
        return false;
    }
    let mut i: usize = 0;
    while i < n
        invariant
            i <= n,
            n == s@.len(),
            m == name@.len(),
            n == m,
            l == s@.map_values(|c: char| ascii_lower(c)),
            forall|k: int| 0 <= k < i ==> l[k] == name@[k],
        decreases n - i,
    {
        if !lower_matches(s.get_char(i), name.get_char(i)) {
            proof { assert(l[i as int] != name@[i as int]); }
            return false;
        }
        i = i + 1;
    }
    proof { assert(l =~= name@); }
    true
}

/// The anchor that a name gives, compared without regard to ASCII case;
/// `Auto` has no name.
pub open spec fn auto_click_anchor_of(s: Seq<char>) -> Option<AppletAutoClickAnchor> {
    let l = s.map_values(|c: char| ascii_lower(c));
    if l == "left"@ {
        Some(AppletAutoClickAnchor::Left)
    } else if l == "right"@ {
        Some(AppletAutoClickAnchor::Right)
    } else if l == "top"@ {
        Some(AppletAutoClickAnchor::Top)
    } else if l == "bottom"@ {
        Some(AppletAutoClickAnchor::Bottom)
    } else if l == "center"@ {
        Some(AppletAutoClickAnchor::Center)
    } else if l == "start"@ {
        Some(AppletAutoClickAnchor::Start)
    } else if l == "end"@ {
        Some(AppletAutoClickAnchor::End)
    } else {
        None
    }
}

impl AppletAutoClickAnchor {
    /// Reads an anchor from its name, in any ASCII case.
    pub fn parse(s: &str) -> (res: Result<Self, ()>)
        ensures
            match auto_click_anchor_of(s@) {
                Some(a) => res == Ok::<Self, ()>(a),
                None => res == Err::<Self, ()>(()),
            },
    {
        if lower_eq(s, "left") {
            Ok(Self::Left)
        } else if lower_eq(s, "right") {
            Ok(Self::Right)
        } else if lower_eq(s, "top") {
            Ok(Self::Top)
        } else if lower_eq(s, "bottom") {
            Ok(Self::Bottom)
        } else if lower_eq(s, "center") {
            Ok(Self::Center)
        } else if lower_eq(s, "start") {
            Ok(Self::Start)
        } else if lower_eq(s, "end") {
            Ok(Self::End)
        } else {
            Err(())
        }
    }
}

impl FromStr for AppletAutoClickAnchor {
    type Err = ();

    fn from_str(s: &str) -> (res: Result<Self, Self::Err>)
        ensures
            match auto_click_anchor_of(s@) {
                Some(a) => res == Ok::<Self, ()>(a),
                None => res == Err::<Self, ()>(()),
            },
    {
        Self::parse(s)
    }
}

/// What the pointer is over: the surface of a client, or an overflow popup.
#[derive(Clone, Debug, PartialEq, Eq)]
pub enum HoverId {
    Client(u64),
    Overflow(String),
}

/// The hovered item, and how many times it has been set.
#[derive(Clone, Debug)]
pub struct HoverTrack {
    pub hover_id: Option<HoverId>,
    pub generation: u32,
}

impl Default for HoverTrack {
    fn default() -> (t: Self)
        ensures
            t.hover_id is None,
            t.generation == 0,
    {
        HoverTrack { hover_id: None, generation: 0 }
    }
}

impl HoverTrack {
    /// Records the hovered item and counts the change.
    pub fn set_hover_id(&mut self, hover_id: Option<HoverId>)
        requires
            old(self).generation < u32::MAX,
        ensures
            final(self).hover_id == hover_id,
            final(self).generation == old(self).generation + 1,
    {
        self.hover_id = hover_id;
        self.generation = self.generation + 1;
    }
}

/// Edge of the output to which the panel is anchored.
#[derive(Clone, Copy, Debug, PartialEq, Eq, Structural)]
pub enum PanelAnchor {
    Left,
    Right,
    Top,
    Bottom,
}

/// The anchor on the other side of the output.
pub open spec fn opposite(anchor: PanelAnchor) -> PanelAnchor {
    match anchor {
        PanelAnchor::Top => PanelAnchor::Bottom,
        PanelAnchor::Bottom => PanelAnchor::Top,
        PanelAnchor::Left => PanelAnchor::Right,
        PanelAnchor::Right => PanelAnchor::Left,
    }
}

impl PanelAnchor {
    /// The anchor on the other side of the output.
    pub fn opposite(self) -> (res: PanelAnchor)
        ensures
            res == opposite(self),
    {
        match self {
            PanelAnchor::Top => PanelAnchor::Bottom,
            PanelAnchor::Bottom => PanelAnchor::Top,
            PanelAnchor::Left => PanelAnchor::Right,
            PanelAnchor::Right => PanelAnchor::Left,
        }
    }

    /// Whether the panel lies along a horizontal edge.
    pub fn is_horizontal(self) -> (res: bool)
        ensures
            res == (self == PanelAnchor::Top || self == PanelAnchor::Bottom),
    {
        match self {
            PanelAnchor::Top | PanelAnchor::Bottom => true,
            PanelAnchor::Left | PanelAnchor::Right => false,
        }
    }
}

/// The opposite of the opposite anchor is the anchor itself.
pub proof fn lemma_opposite_involution(anchor: PanelAnchor)
    ensures
        opposite(opposite(anchor)) == anchor,
        opposite(anchor) != anchor,
{
}

/// The layer-surface margins `(top, right, bottom, left)` of a panel on the
/// given edge: `margin` on both sides along the edge, `additional_gap`
/// against the edge, none on the side facing the output.
pub open spec fn margins(anchor: PanelAnchor, margin: i32, additional_gap: i32) -> (i32, i32, i32, i32) {
    match anchor {
        PanelAnchor::Left => (margin, 0, margin, additional_gap),
        PanelAnchor::Right => (margin, additional_gap, margin, 0),
        PanelAnchor::Top => (additional_gap, margin, 0, margin),
        PanelAnchor::Bottom => (0, margin, additional_gap, margin),
    }
}

/// The margins to set on the panel's layer surface.
pub fn set_margin(anchor: PanelAnchor, margin: i32, additional_gap: i32) -> (res: (i32, i32, i32, i32))
    ensures
        res == margins(anchor, margin, additional_gap),
{
    match anchor {
        PanelAnchor::Left => (margin, 0, margin, additional_gap),
        PanelAnchor::Right => (margin, additional_gap, margin, 0),
        PanelAnchor::Top => (additional_gap, margin, 0, margin),
        PanelAnchor::Bottom => (0, margin, additional_gap, margin),
    }
}

/// The kind of background a panel is configured with.
#[derive(Clone, Copy, Debug, PartialEq, Eq, Structural)]
pub enum PanelBackgroundKind {
    ThemeDefault,
    Dark,
    Light,
    Color,
}

/// Whether the panel is drawn dark: as the system is, unless its background
/// is configured dark or light.
pub fn is_dark(background: PanelBackgroundKind, system_is_dark: bool) -> (res: bool)
    ensures
        res == match background {
            PanelBackgroundKind::ThemeDefault | PanelBackgroundKind::Color => system_is_dark,
            PanelBackgroundKind::Dark => true,
            PanelBackgroundKind::Light => false,
        },
{
    match background {
        PanelBackgroundKind::ThemeDefault | PanelBackgroundKind::Color => system_is_dark,
        PanelBackgroundKind::Dark => true,
        PanelBackgroundKind::Light => false,
    }
}

} // verus!
