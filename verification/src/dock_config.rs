//! Configuration of the dock: the edge it is anchored to, its layer, its
//! keyboard interactivity, its size and the dimension constraints derived
//! from them.

use vstd::prelude::*;
use std::ops::Range;

verus! {

/// Protocol value of the `top` anchor bit of a layer surface.
pub const ANCHOR_BIT_TOP: u32 = 1;
/// Protocol value of the `bottom` anchor bit of a layer surface.
pub const ANCHOR_BIT_BOTTOM: u32 = 2;
/// Protocol value of the `left` anchor bit of a layer surface.
pub const ANCHOR_BIT_LEFT: u32 = 4;
/// Protocol value of the `right` anchor bit of a layer surface.
pub const ANCHOR_BIT_RIGHT: u32 = 8;

/// Edge to which the dock is anchored
#[derive(Clone, Copy, Debug, PartialEq, Eq, Structural)]
pub enum Anchor {
    /// anchored to left edge
    Left,
    /// anchored to right edge
    Right,
    /// anchored to top edge
    Top,
    /// anchored to bottom edge
    Bottom,
}

/// An anchor bit set that names none of the four edges.
#[derive(Clone, Copy, Debug, PartialEq, Eq, Structural)]
pub struct InvalidAnchor;

/// The anchor that a layer-surface anchor bit set selects: the first of
/// left, right, top, bottom whose bit is set.
pub open spec fn anchor_of_bits(bits: u32) -> Option<Anchor> {
    if bits & ANCHOR_BIT_LEFT == ANCHOR_BIT_LEFT {
        Some(Anchor::Left)
    } else if bits & ANCHOR_BIT_RIGHT == ANCHOR_BIT_RIGHT {
        Some(Anchor::Right)
    } else if bits & ANCHOR_BIT_TOP == ANCHOR_BIT_TOP {
        Some(Anchor::Top)
    } else if bits & ANCHOR_BIT_BOTTOM == ANCHOR_BIT_BOTTOM {
        Some(Anchor::Bottom)
    } else {
        None
    }
}

/// The anchor bit set with exactly the bit of the given edge.
pub open spec fn bits_of_anchor(anchor: Anchor) -> u32 {
    match anchor {
        Anchor::Left => ANCHOR_BIT_LEFT,
        Anchor::Right => ANCHOR_BIT_RIGHT,
        Anchor::Top => ANCHOR_BIT_TOP,
        Anchor::Bottom => ANCHOR_BIT_BOTTOM,
    }
}

impl Anchor {
    /// Reads the anchor from a layer-surface anchor bit set.
    pub fn try_from_bits(bits: u32) -> (res: Result<Anchor, InvalidAnchor>)
        ensures
            match anchor_of_bits(bits) {
                Some(a) => res == Ok::<Anchor, InvalidAnchor>(a),
                None => res == Err::<Anchor, InvalidAnchor>(InvalidAnchor),
            },
    {
        if bits & ANCHOR_BIT_LEFT == ANCHOR_BIT_LEFT {
            Ok(Anchor::Left)
        } else if bits & ANCHOR_BIT_RIGHT == ANCHOR_BIT_RIGHT {
            Ok(Anchor::Right)
        } else if bits & ANCHOR_BIT_TOP == ANCHOR_BIT_TOP {
            Ok(Anchor::Top)
        } else if bits & ANCHOR_BIT_BOTTOM == ANCHOR_BIT_BOTTOM {
            Ok(Anchor::Bottom)
        } else {
            Err(InvalidAnchor)
        }
    }

    /// The layer-surface anchor bit set of this edge.
    pub fn to_bits(self) -> (bits: u32)
        ensures
            bits == bits_of_anchor(self),
    {
        match self {
            Anchor::Left => ANCHOR_BIT_LEFT,
            Anchor::Right => ANCHOR_BIT_RIGHT,
            Anchor::Top => ANCHOR_BIT_TOP,
            Anchor::Bottom => ANCHOR_BIT_BOTTOM,
        }
    }
}

/// Reading back the bit set of an edge gives that edge.
pub proof fn lemma_anchor_bits_roundtrip(anchor: Anchor)
    ensures
        anchor_of_bits(bits_of_anchor(anchor)) == Some(anchor),
{
    assert(1u32 & 4u32 == 0u32 && 1u32 & 8u32 == 0u32 && 1u32 & 1u32 == 1u32
        && 2u32 & 4u32 == 0u32 && 2u32 & 8u32 == 0u32 && 2u32 & 1u32 == 0u32
        && 2u32 & 2u32 == 2u32 && 4u32 & 4u32 == 4u32 && 8u32 & 4u32 == 0u32
        && 8u32 & 8u32 == 8u32) by (bit_vector);
}


/// Layer which the cosmic dock is on
#[derive(Clone, Copy, Debug, PartialEq, Eq, Structural)]
pub enum Layer {
    /// background layer
    Background,
    /// Bottom layer
    Bottom,
    /// Top layer
    Top,
    /// Overlay layer
    Overlay,
}

/// The layer that a layer-shell layer value names; values the protocol does
/// not define are read as the top layer.
pub open spec fn layer_of_value(value: u32) -> Layer {
    if value == 0 {
        Layer::Background
    } else if value == 1 {
        Layer::Bottom
    } else if value == 2 {
        Layer::Top
    } else if value == 3 {
        Layer::Overlay
    } else {
        Layer::Top
    }
}

/// The layer-shell protocol value of a layer.
pub open spec fn value_of_layer(layer: Layer) -> u32 {
    match layer {
        Layer::Background => 0,
        Layer::Bottom => 1,
        Layer::Top => 2,
        Layer::Overlay => 3,
    }
}

impl Layer {
    /// Reads a layer from its layer-shell protocol value.
    pub fn from_value(value: u32) -> (layer: Layer)
        ensures
            layer == layer_of_value(value),
    {
        if value == 0 {
            Layer::Background
        } else if value == 1 {
            Layer::Bottom
        } else if value == 2 {
            Layer::Top
        } else if value == 3 {
            Layer::Overlay
        } else {
            Layer::Top
        }
    }

    /// The layer-shell protocol value of this layer.
    pub fn to_value(self) -> (value: u32)
        ensures
            value == value_of_layer(self),
    {
        match self {
            Layer::Background => 0,
            Layer::Bottom => 1,
            Layer::Top => 2,
            Layer::Overlay => 3,
        }
    }
}

/// Interactivity level of the cosmic dock
#[derive(Clone, Copy, Debug, PartialEq, Eq, Structural)]
pub enum KeyboardInteractivity {
    /// Not interactible
    NotInteractive,
    /// Only surface which is interactible
    Exclusive,
    /// Interactible when given keyboard focus
    OnDemand,
}

/// The interactivity that a layer-shell keyboard interactivity value names;
/// values the protocol does not define are read as no interactivity.
pub open spec fn interactivity_of_value(value: u32) -> KeyboardInteractivity {
    if value == 1 {
        KeyboardInteractivity::Exclusive
    } else if value == 2 {
        KeyboardInteractivity::OnDemand
    } else {
        KeyboardInteractivity::NotInteractive
    }
}

/// The layer-shell protocol value of a keyboard interactivity level.
pub open spec fn value_of_interactivity(k: KeyboardInteractivity) -> u32 {
    match k {
        KeyboardInteractivity::NotInteractive => 0,
        KeyboardInteractivity::Exclusive => 1,
        KeyboardInteractivity::OnDemand => 2,
    }
}

impl KeyboardInteractivity {
    /// Reads an interactivity level from its layer-shell protocol value.
    pub fn from_value(value: u32) -> (k: KeyboardInteractivity)
        ensures
            k == interactivity_of_value(value),
    {
        if value == 1 {
            KeyboardInteractivity::Exclusive
        } else if value == 2 {
            KeyboardInteractivity::OnDemand
        } else {
            KeyboardInteractivity::NotInteractive
        }
    }

    /// The layer-shell protocol value of this interactivity level.
    pub fn to_value(self) -> (value: u32)
        ensures
            value == value_of_interactivity(self),
    {
        match self {
            KeyboardInteractivity::NotInteractive => 0,
            KeyboardInteractivity::Exclusive => 1,
            KeyboardInteractivity::OnDemand => 2,
        }
    }
}

/// Reading back the protocol value of a layer or an interactivity level gives
/// it back.
pub proof fn lemma_protocol_values_roundtrip(layer: Layer, k: KeyboardInteractivity)
    ensures
        layer_of_value(value_of_layer(layer)) == layer,
        interactivity_of_value(value_of_interactivity(k)) == k,
{
}

/// Configurable size for the cosmic dock
#[derive(Debug)]
pub enum DockSize {
    /// XS
    XS,
    /// S
    S,
    /// M
    M,
    /// L
    L,
    /// XL
    XL,
    /// Custom Dock Size range,
    Custom(Range<u32>),
}

impl Clone for DockSize {
    fn clone(&self) -> (res: Self)
        ensures
            res == *self,
    {
        match self {
            DockSize::XS => DockSize::XS,
            DockSize::S => DockSize::S,
            DockSize::M => DockSize::M,
            DockSize::L => DockSize::L,
            DockSize::XL => DockSize::XL,
            DockSize::Custom(c) => DockSize::Custom(Range { start: c.start, end: c.end }),
        }
    }
}

/// configurable background color for the cosmic dock
#[derive(Clone, Copy, Debug)]
pub enum CosmicDockBackground {
    /// theme default color
    ThemeDefault,
    /// RGBA
    Color([u8; 4]),
}

/// Config structure for the cosmic dock
#[derive(Clone, Debug)]
pub struct CosmicDockConfig {
    /// edge which the dock is locked to
    pub anchor: Anchor,
    /// gap between the dock and the edge of the ouput
    pub anchor_gap: bool,
    /// configured layer which the dock is on
    pub layer: Layer,
    /// configured interactivity level for the dock
    pub keyboard_interactivity: KeyboardInteractivity,
    /// configured size for the dock
    pub size: DockSize,
    /// configured output, or None to place on all outputs
    pub output: Option<String>,
    /// customized background, or
    pub background: Option<CosmicDockBackground>,
    /// list of plugins on the left or top of the dock
    pub plugins_left: Vec<String>,
    /// list of plugins in the center of the dock
    pub plugins_center: Vec<String>,
    /// list of plugins on the right or bottom of the dock
    pub plugins_right: Vec<String>,
    /// whether the dock should stretch to the edges of output
    pub expand_to_edges: bool,
}

impl CosmicDockConfig {
    /// The configuration used when none is stored under a name.
    pub open spec fn is_default(self) -> bool {
        &&& self.anchor == Anchor::Top
        &&& !self.anchor_gap
        &&& self.layer == Layer::Top
        &&& self.keyboard_interactivity == KeyboardInteractivity::OnDemand
        &&& self.size is M
        &&& self.output is None
        &&& self.background is None
        &&& self.plugins_left@.len() == 0
        &&& self.plugins_center@.len() == 0
        &&& self.plugins_right@.len() == 0
        &&& self.expand_to_edges
    }

    /// Whether the dock covers the whole edge of the output.
    pub open spec fn spec_expand_to_edges(self) -> bool {
        self.expand_to_edges || self.plugins_left@.len() > 0 || self.plugins_right@.len() > 0
    }

    /// The range of thicknesses that the configured size allows.
    pub open spec fn thickness_range(self) -> (u32, u32) {
        match self.size {
            DockSize::XS => (10, 41),
            DockSize::S => (10, 61),
            DockSize::M => (10, 81),
            DockSize::L => (10, 101),
            DockSize::XL => (10, 121),
            DockSize::Custom(c) => (c.start, c.end),
        }
    }

    /// get whether the dock should expand to cover the edges of the output
    pub fn expand_to_edges(&self) -> (res: bool)
        ensures
            res == self.spec_expand_to_edges(),
    {
        self.expand_to_edges || self.plugins_left.len() > 0 || self.plugins_right.len() > 0
    }

    /// get constraints for the thickness of the dock bar, and, for a dock
    /// that stretches to the edges of the output, its length: exactly the
    /// output's width along a top or bottom edge, its height along a side
    pub fn get_dimensions(&self, output_dims: (u32, u32)) -> (res: (
        Option<Range<u32>>,
        Option<Range<u32>>,
    ))
        ensures
            ({
                let (lo, hi) = self.thickness_range();
                let thickness = Some(Range { start: lo, end: hi });
                let along = if self.spec_expand_to_edges() {
                    match self.anchor {
                        Anchor::Left | Anchor::Right => Some(
                            Range { start: output_dims.1, end: output_dims.1 },
                        ),
                        Anchor::Top | Anchor::Bottom => Some(
                            Range { start: output_dims.0, end: output_dims.0 },
                        ),
                    }
                } else {
                    None
                };
                match self.anchor {
                    Anchor::Left | Anchor::Right => res == (thickness, along),
                    Anchor::Top | Anchor::Bottom => res == (along, thickness),
                }
            }),
    {
        let bar_thickness = match &self.size {
            DockSize::XS => Range { start: 10, end: 41 },
            DockSize::S => Range { start: 10, end: 61 },
            DockSize::M => Range { start: 10, end: 81 },
            DockSize::L => Range { start: 10, end: 101 },
            DockSize::XL => Range { start: 10, end: 121 },
            DockSize::Custom(c) => Range { start: c.start, end: c.end },
        };
        match self.anchor {
            Anchor::Left | Anchor::Right => (
                Some(bar_thickness),
                if self.expand_to_edges() {
                    Some(Range { start: output_dims.1, end: output_dims.1 })
                } else {
                    None
                },
            ),
            Anchor::Top | Anchor::Bottom => (
                if self.expand_to_edges() {
                    Some(Range { start: output_dims.0, end: output_dims.0 })
                } else {
                    None
                },
                Some(bar_thickness),
            ),
        }
    }
}

impl Default for CosmicDockConfig {
    fn default() -> (c: Self)
        ensures
            c.is_default(),
    {
        Self {
            anchor: Anchor::Top,
            anchor_gap: false,
            layer: Layer::Top,
            keyboard_interactivity: KeyboardInteractivity::OnDemand,
            size: DockSize::M,
            output: None,
            background: None,
            plugins_left: Vec::new(),
            plugins_center: Vec::new(),
            plugins_right: Vec::new(),
            expand_to_edges: true,
        }
    }
}


/// The named dock configurations, each name at most once.
pub struct DockConfigs {
    entries: Vec<(String, CosmicDockConfig)>,
}

/// Whether no name occurs twice among the entries.
pub open spec fn names_distinct(entries: Seq<(String, CosmicDockConfig)>) -> bool {
    forall|i: int, j: int|
        0 <= i < entries.len() && 0 <= j < entries.len() && i != j ==> entries[i].0@
            != entries[j].0@
}

/// Whether some entry carries the name.
pub open spec fn has_name(entries: Seq<(String, CosmicDockConfig)>, name: Seq<char>) -> bool {
    exists|i: int| 0 <= i < entries.len() && entries[i].0@ == name
}

/// The configuration stored under a name, if any.
pub open spec fn lookup(entries: Seq<(String, CosmicDockConfig)>, name: Seq<char>) -> Option<
    CosmicDockConfig,
> {
    if has_name(entries, name) {
        let i = choose|i: int| 0 <= i < entries.len() && entries[i].0@ == name;
        Some(entries[i].1)
    } else {
        None
    }
}

proof fn lemma_lookup_at(entries: Seq<(String, CosmicDockConfig)>, i: int)
    requires
        names_distinct(entries),
        0 <= i < entries.len(),
    ensures
        lookup(entries, entries[i].0@) == Some(entries[i].1),
{
    assert(has_name(entries, entries[i].0@));
}

impl DockConfigs {
    #[verifier::type_invariant]
    spec fn inv(self) -> bool {
        names_distinct(self.entries@)
    }

    /// The configuration stored under a name, if any.
    pub closed spec fn get(self, name: Seq<char>) -> Option<CosmicDockConfig> {
        lookup(self.entries@, name)
    }

    /// The number of stored configurations.
    pub closed spec fn count(self) -> nat {
        self.entries@.len()
    }

    /// An empty set of configurations.
    pub fn new() -> (res: Self)
        ensures
            forall|name: Seq<char>| #[trigger] res.get(name) is None,
            res.count() == 0,
    {
        DockConfigs { entries: Vec::new() }
    }

    /// The number of stored configurations.
    pub fn len(&self) -> (n: usize)
        ensures
            n == self.count(),
    {
        self.entries.len()
    }

    fn position(&self, name: &String) -> (res: Option<usize>)
        ensures
            match res {
                Some(i) => i < self.entries@.len() && self.entries@[i as int].0@ == name@,
                None => !has_name(self.entries@, name@),
            },
    {
        let mut i: usize = 0;
        while i < self.entries.len()
            invariant
                i <= self.entries@.len(),
                forall|j: int| 0 <= j < i ==> self.entries@[j].0@ != name@,
            decreases self.entries@.len() - i,
        {
            if self.entries[i].0 == *name {
                return Some(i);
            }
            i = i + 1;
        }
        None
    }

    /// Stores a configuration under a name, replacing what was stored there.
    pub fn insert(&mut self, name: String, config: CosmicDockConfig)
        ensures
            final(self).get(name@) == Some(config),
            forall|other: Seq<char>| other != name@ ==> #[trigger] final(self).get(other) == old(self).get(other),
            final(self).count() == old(self).count() + if old(self).get(name@) is Some { 0int } else { 1int },
    {
        proof { use_type_invariant(&*self); }
        let ghost old_entries = self.entries@;
        match self.position(&name) {
            Some(i) => {
                let mut entries: Vec<(String, CosmicDockConfig)> = Vec::new();
                std::mem::swap(&mut entries, &mut self.entries);
                entries.set(i, (name, config));
                let ghost new_entries = entries@;
                assert(names_distinct(new_entries));
                proof {
                    lemma_lookup_at(new_entries, i as int);
                    lemma_lookup_at(old_entries, i as int);
                    assert forall|other: Seq<char>| other != name@ implies #[trigger] lookup(new_entries, other) == lookup(old_entries, other) by {
                        if has_name(old_entries, other) {
                            let j = choose|j: int| 0 <= j < old_entries.len() && old_entries[j].0@ == other;
                            lemma_lookup_at(old_entries, j);
                            lemma_lookup_at(new_entries, j);
                        } else {
                            assert(!has_name(new_entries, other));
                        }
                    }
                }
                self.entries = entries;
            },
            None => {
                let mut entries: Vec<(String, CosmicDockConfig)> = Vec::new();
                std::mem::swap(&mut entries, &mut self.entries);
                entries.push((name, config));
                let ghost new_entries = entries@;
                assert(names_distinct(new_entries));
                proof {
                    lemma_lookup_at(new_entries, old_entries.len() as int);
                    assert forall|other: Seq<char>| other != name@ implies #[trigger] lookup(new_entries, other) == lookup(old_entries, other) by {
                        if has_name(old_entries, other) {
                            let j = choose|j: int| 0 <= j < old_entries.len() && old_entries[j].0@ == other;
                            lemma_lookup_at(old_entries, j);
                            lemma_lookup_at(new_entries, j);
                        } else {
                            assert(!has_name(new_entries, other));
                        }
                    }
                }
                self.entries = entries;
            },
        }
    }

    /// Takes out the configuration stored under a name, if any.
    pub fn remove(&mut self, name: &String) -> (res: Option<CosmicDockConfig>)
        ensures
            res == old(self).get(name@),
            final(self).get(name@) is None,
            forall|other: Seq<char>| other != name@ ==> #[trigger] final(self).get(other) == old(self).get(other),
    {
        proof { use_type_invariant(&*self); }
        let ghost old_entries = self.entries@;
        match self.position(name) {
            Some(i) => {
                let mut entries: Vec<(String, CosmicDockConfig)> = Vec::new();
                std::mem::swap(&mut entries, &mut self.entries);
                let (_, config) = entries.remove(i);
                let ghost new_entries = entries@;
                assert(new_entries =~= old_entries.remove(i as int));
                assert(names_distinct(new_entries));
                proof {
                    lemma_lookup_at(old_entries, i as int);
                    assert(!has_name(new_entries, name@));
                    assert forall|other: Seq<char>| other != name@ implies #[trigger] lookup(new_entries, other) == lookup(old_entries, other) by {
                        if has_name(old_entries, other) {
                            let j = choose|j: int| 0 <= j < old_entries.len() && old_entries[j].0@ == other;
                            lemma_lookup_at(old_entries, j);
                            if j < i {
                                lemma_lookup_at(new_entries, j);
                            } else {
                                assert(j > i);
                                lemma_lookup_at(new_entries, j - 1);
                            }
                        } else {
                            assert(!has_name(new_entries, other));
                        }
                    }
                }
                self.entries = entries;
                Some(config)
            },
            None => None,
        }
    }

    /// The stored names and configurations.
    pub fn into_entries(self) -> (res: Vec<(String, CosmicDockConfig)>)
        ensures
            names_distinct(res@),
            res@.len() == self.count(),
            forall|name: Seq<char>| #[trigger] lookup(res@, name) == self.get(name),
    {
        proof { use_type_invariant(&self); }
        self.entries
    }
}

impl CosmicDockConfig {
    /// load config with the provided name
    pub fn load(configs: DockConfigs, name: &str) -> (res: Self)
        ensures
            match configs.get(name@) {
                Some(c) => res == c,
                None => res.is_default(),
            },
    {
        let mut configs = configs;
        let key = name.to_string();
        proof { vstd::string::to_string_from_display_ensures_for_str(name, key); }
        match configs.remove(&key) {
            Some(c) => c,
            _ => Self::default(),
        }
    }

    /// The configurations to store when writing this configuration under a
    /// name: those given, with this configuration under that name.
    pub fn configs_for_write(self, configs: DockConfigs, name: &str) -> (res: DockConfigs)
        ensures
            res.get(name@) == Some(self),
            forall|other: Seq<char>| other != name@ ==> #[trigger] res.get(other) == configs.get(other),
    {
        let mut configs = configs;
        let key = name.to_string();
        proof { vstd::string::to_string_from_display_ensures_for_str(name, key); }
        configs.insert(key, self);
        configs
    }

}

} // verus!
