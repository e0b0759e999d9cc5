//! The components that an entity can carry.

use vstd::prelude::*;
use vstd::string::*;

verus! {

/// Colour of a box or of a box spot.
#[derive(Clone, Copy, Debug, PartialEq, Eq, Structural)]
pub enum BoxColour {
    Blue,
    Red,
}

impl BoxColour {
    /// The colour's lower-case name, as it appears in asset paths.
    pub open spec fn name(self) -> Seq<char> {
        match self {
            BoxColour::Blue => "blue"@,
            BoxColour::Red => "red"@,
        }
    }

    /// The colour's name as a string.
    pub fn to_string(&self) -> (s: String)
        ensures
            s@ == self.name(),
    {
        match self {
            BoxColour::Blue => String::from_str("blue"),
            BoxColour::Red => String::from_str("red"),
        }
    }
}

/// How a renderable is drawn: one fixed image, or a cycle of frames.
#[derive(Clone, Copy, Debug, PartialEq, Eq, Structural)]
pub enum RenderableType {
    Static,
    Animated,
}

/// Where an entity stands. `x` and `y` are the grid cell; `z` is the draw
/// layer and plays no part in the simulation.
#[derive(Clone, Copy, Debug, PartialEq, Eq, Structural)]
pub struct Position {
    pub x: u8,
    pub y: u8,
    pub z: u8,
}

impl Position {
    /// The grid cell of this position, without its layer.
    pub open spec fn cell(self) -> (u8, u8) {
        (self.x, self.y)
    }
}

/// The image paths an entity is drawn with. It always holds at least one.
#[derive(Debug)]
pub struct Renderable {
    paths: Vec<String>,
}

impl View for Renderable {
    type V = Seq<Seq<char>>;

    /// The image paths, in frame order.
    closed spec fn view(&self) -> Seq<Seq<char>> {
        self.paths@.map_values(|p: String| p@)
    }
}

impl Renderable {
    #[verifier::type_invariant]
    spec fn has_a_path(&self) -> bool {
        self.paths@.len() > 0
    }

    /// What `kind` answers for a renderable with `n` paths.
    pub open spec fn kind_of(n: nat) -> RenderableType {
        if n == 1 {
            RenderableType::Static
        } else {
            RenderableType::Animated
        }
    }

    /// A renderable with one fixed image.
    pub fn new_static(path: String) -> (r: Self)
        ensures
            r@ == seq![path@],
    {
        Renderable { paths: vec![path] }
    }

    /// A renderable that cycles through `paths`, of which there must be
    /// at least one.
    pub fn new_animated(paths: Vec<String>) -> (r: Self)
        requires
            paths@.len() > 0,
        ensures
            r@ == paths@.map_values(|p: String| p@),
    {
        Renderable { paths }
    }

    /// Number of image paths; never zero.
    pub fn len(&self) -> (n: usize)
        ensures
            n == self@.len(),
            n > 0,
    {
        proof {
            use_type_invariant(self);
        }
        self.paths.len()
    }

    /// `Static` for a renderable with exactly one path, `Animated` for
    /// one with more.
    pub fn kind(&self) -> (kind: RenderableType)
        ensures
            self@.len() > 0,
            kind == Self::kind_of(self@.len()),
    {
        proof {
            use_type_invariant(self);
        }
        if self.paths.len() == 1 {
            RenderableType::Static
        } else {
            RenderableType::Animated
        }
    }

    /// The path of frame `path_index`, counting round the cycle.
    pub fn path(&self, path_index: usize) -> (path: &String)
        ensures
            self@.len() > 0,
            path@ == self@[path_index as int % self@.len() as int],
    {
        proof {
            use_type_invariant(self);
        }
        &self.paths[path_index % self.paths.len()]
    }
}

/// Tag: the entity can be pushed.
#[derive(Clone, Copy, Debug, Default, PartialEq, Eq, Structural)]
pub struct Movable;

/// Tag: the entity blocks every push.
#[derive(Clone, Copy, Debug, Default, PartialEq, Eq, Structural)]
pub struct Immovable;

/// Tag: the entity is a wall.
#[derive(Clone, Copy, Debug, PartialEq, Eq, Structural)]
pub struct Wall {}

/// Tag: the entity is the player.
#[derive(Clone, Copy, Debug, PartialEq, Eq, Structural)]
pub struct Player {}

/// A box, to be pushed onto a spot.
#[derive(Clone, Copy, Debug, PartialEq, Eq, Structural)]
pub struct Box {
    pub colour: BoxColour,
}

/// A target cell for a box.
#[derive(Clone, Copy, Debug, PartialEq, Eq, Structural)]
pub struct BoxSpot {
    pub colour: BoxColour,
}

} // verus!
