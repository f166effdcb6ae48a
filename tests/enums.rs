use catan_term::enums::{PortResource, Resource, TileResource};

#[test]
fn symbols() {
    assert_eq!(Resource::Wool.get_symbol(), "🐑");
    assert_eq!(Resource::Ore.get_symbol(), "🪨");
    assert_eq!(PortResource::OfAnyKind.get_symbol(), "?");
    assert_eq!(PortResource::Of(Resource::Brick).get_symbol(), "🧱");
    assert_eq!(TileResource::OfDesert.get_symbol(), "🌵");
    assert_eq!(TileResource::Of(Resource::Lumber).get_symbol(), "🌲");
    assert_eq!(TileResource::Of(Resource::Wheat).get_symbol(), "🌾");
}

#[test]
fn ratios() {
    assert_eq!(PortResource::OfAnyKind.get_ratio(), (3, 1));
    assert_eq!(PortResource::Of(Resource::Wheat).get_ratio(), (2, 1));
}
