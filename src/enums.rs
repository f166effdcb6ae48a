//! The board's resources and their labels.
use vstd::prelude::*;

verus! {

/// The main resources of the game.
#[derive(Debug, Copy, Clone, PartialEq, Eq, Structural)]
pub enum Resource {
    Ore,
    Wool,
    Wheat,
    Brick,
    Lumber,
}

pub open spec fn resource_symbol(r: Resource) -> Seq<char> {
    match r {
        Resource::Ore => seq!['\u{1FAA8}'],
        Resource::Wool => seq!['\u{1F411}'],
        Resource::Wheat => seq!['\u{1F33E}'],
        Resource::Brick => seq!['\u{1F9F1}'],
        Resource::Lumber => seq!['\u{1F332}'],
    }
}

impl Resource {
    /// The glyph a resource is drawn with.
    pub fn get_symbol(&self) -> (r: &'static str)
        ensures
            r@ == resource_symbol(*self),
    {
        match self {
            Resource::Ore => {
                let s = "\u{1FAA8}";
                proof {
                    reveal_strlit("\u{1FAA8}");
                }
                s
            },
            Resource::Wool => {
                let s = "\u{1F411}";
                proof {
                    reveal_strlit("\u{1F411}");
                }
                s
            },
            Resource::Wheat => {
                let s = "\u{1F33E}";
                proof {
                    reveal_strlit("\u{1F33E}");
                }
                s
            },
            Resource::Brick => {
                let s = "\u{1F9F1}";
                proof {
                    reveal_strlit("\u{1F9F1}");
                }
                s
            },
            Resource::Lumber => {
                let s = "\u{1F332}";
                proof {
                    reveal_strlit("\u{1F332}");
                }
                s
            },
        }
    }
}

/// What a port trades: one given resource, or any one kind of the trader's choice.
#[derive(Debug, Copy, Clone, PartialEq, Eq, Structural)]
pub enum PortResource {
    Of(Resource),
    OfAnyKind,
}

impl PortResource {
    /// The port's glyph: the resource's, or a question mark for any kind.
    pub fn get_symbol(&self) -> (r: &'static str)
        ensures
            r@ == match *self {
                PortResource::Of(res) => resource_symbol(res),
                PortResource::OfAnyKind => seq!['?'],
            },
    {
        match self {
            PortResource::OfAnyKind => {
                let s = "?";
                proof {
                    reveal_strlit("?");
                }
                s
            },
            PortResource::Of(resource) => resource.get_symbol(),
        }
    }

    /// The trading ratio (given, received): two for one at a specific port,
    /// three for one at a port of any kind.
    pub fn get_ratio(&self) -> (r: (u32, u32))
        ensures
            r == match *self {
                PortResource::Of(_) => (2u32, 1u32),
                PortResource::OfAnyKind => (3u32, 1u32),
            },
    {
        match self {
            PortResource::OfAnyKind => (3, 1),
            PortResource::Of(_) => (2, 1),
        }
    }
}

/// A tile yields a resource or is the desert.
#[derive(Debug, Copy, Clone, PartialEq, Eq, Structural)]
pub enum TileResource {
    OfDesert,
    Of(Resource),
}

impl TileResource {
    /// The tile's glyph: the resource's, or a cactus for the desert.
    pub fn get_symbol(&self) -> (r: &'static str)
        ensures
            r@ == match *self {
                TileResource::Of(res) => resource_symbol(res),
                TileResource::OfDesert => seq!['\u{1F335}'],
            },
    {
        match self {
            TileResource::OfDesert => {
                let s = "\u{1F335}";
                proof {
                    reveal_strlit("\u{1F335}");
                }
                s
            },
            TileResource::Of(resource) => resource.get_symbol(),
        }
    }
}

/// A building on a road point.
#[derive(Debug, Copy, Clone, PartialEq, Eq, Structural)]
pub enum Building {
    Settlement,
    City,
}

} // verus!
