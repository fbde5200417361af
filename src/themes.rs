//! Visual themes: a glyph and a colour pair for each kind of tile.
use vstd::prelude::*;
use bracket_lib::terminal::to_cp437;
use crate::map::TileType;

verus! {

/// The code page 437 code that the font draws for `c`.
pub uninterp spec fn cp437_of(c: char) -> u16;

/// Relies on `to_cp437`: a fixed table from characters to code page 437
/// codes, in which each printable ASCII character keeps its own code.
#[verifier::external_body]
pub(crate) fn glyph_of(c: char) -> (r: u16)
    ensures
        r == cp437_of(c),
        (' ' <= c <= '~') ==> r == c as u16,
{
    to_cp437(c)
}

#[derive(Clone, Copy, Debug, PartialEq, Eq, Structural)]
pub struct Rgb {
    pub r: u8,
    pub g: u8,
    pub b: u8,
}

#[derive(Clone, Copy, Debug, PartialEq, Eq, Structural)]
pub struct ColorPair {
    pub fg: Rgb,
    pub bg: Rgb,
}

pub open spec fn rgb(r: u8, g: u8, b: u8) -> Rgb {
    Rgb { r, g, b }
}

pub open spec fn pair(fg: Rgb, bg: Rgb) -> ColorPair {
    ColorPair { fg, bg }
}

pub fn color_pair(fr: u8, fg: u8, fb: u8, br: u8, bg: u8, bb: u8) -> (r: ColorPair)
    ensures
        r == pair(rgb(fr, fg, fb), rgb(br, bg, bb)),
{
    ColorPair { fg: Rgb { r: fr, g: fg, b: fb }, bg: Rgb { r: br, g: bg, b: bb } }
}

/// How a theme draws each kind of tile.
pub trait MapTheme {
    /// The character and colours that stand for `tile_type`.
    spec fn look(&self, tile_type: TileType) -> (char, ColorPair);

    fn tile_to_render(&self, tile_type: TileType) -> (r: (u16, ColorPair))
        ensures
            r.0 == cp437_of(self.look(tile_type).0),
            (' ' <= self.look(tile_type).0 <= '~') ==> r.0 == self.look(tile_type).0 as u16,
            r.1 == self.look(tile_type).1,
    ;
}

pub struct DungeonTheme {}

impl DungeonTheme {
    pub fn new() -> (r: DungeonTheme) {
        DungeonTheme {  }
    }
}

pub open spec fn dungeon_look(tile_type: TileType) -> (char, ColorPair) {
    match tile_type {
        TileType::Ground => ('\u{2591}', pair(rgb(26, 26, 32), rgb(11, 11, 15))),
        TileType::Wall => ('\u{252c}', pair(rgb(179, 75, 84), rgb(214, 110, 105))),
        TileType::Floorboard => ('-', pair(rgb(102, 73, 53), rgb(150, 100, 72))),
        TileType::Grass => ('"', pair(rgb(2, 219, 158), rgb(2, 168, 129))),
        TileType::Door => ('\u{25ac}', pair(rgb(214, 110, 105), rgb(150, 100, 72))),
    }
}

impl MapTheme for DungeonTheme {
    open spec fn look(&self, tile_type: TileType) -> (char, ColorPair) {
        dungeon_look(tile_type)
    }

    fn tile_to_render(&self, tile_type: TileType) -> (r: (u16, ColorPair)) {
        match tile_type {
            TileType::Ground => (glyph_of('\u{2591}'), color_pair(26, 26, 32, 11, 11, 15)),
            TileType::Wall => (glyph_of('\u{252c}'), color_pair(179, 75, 84, 214, 110, 105)),
            TileType::Floorboard => (glyph_of('-'), color_pair(102, 73, 53, 150, 100, 72)),
            TileType::Grass => (glyph_of('"'), color_pair(2, 219, 158, 2, 168, 129)),
            TileType::Door => (glyph_of('\u{25ac}'), color_pair(214, 110, 105, 150, 100, 72)),
        }
    }
}

pub struct ForestTheme {}

impl ForestTheme {
    pub fn new() -> (r: ForestTheme) {
        ForestTheme {  }
    }
}

pub open spec fn forest_look(tile_type: TileType) -> (char, ColorPair) {
    match tile_type {
        TileType::Ground => (',', pair(rgb(0, 140, 90), rgb(0, 64, 64))),
        TileType::Wall => ('\u{2660}', pair(rgb(0, 178, 89), rgb(0, 64, 64))),
        TileType::Floorboard => ('\u{2248}', pair(rgb(26, 20, 13), rgb(51, 41, 26))),
        TileType::Grass => ('`', pair(rgb(0, 140, 105), rgb(0, 64, 64))),
        TileType::Door => ('\u{2229}', pair(rgb(128, 128, 128), rgb(0, 64, 64))),
    }
}

impl MapTheme for ForestTheme {
    open spec fn look(&self, tile_type: TileType) -> (char, ColorPair) {
        forest_look(tile_type)
    }

    fn tile_to_render(&self, tile_type: TileType) -> (r: (u16, ColorPair)) {
        match tile_type {
            TileType::Ground => (glyph_of(','), color_pair(0, 140, 90, 0, 64, 64)),
            TileType::Wall => (glyph_of('\u{2660}'), color_pair(0, 178, 89, 0, 64, 64)),
            TileType::Floorboard => (glyph_of('\u{2248}'), color_pair(26, 20, 13, 51, 41, 26)),
            TileType::Grass => (glyph_of('`'), color_pair(0, 140, 105, 0, 64, 64)),
            TileType::Door => (glyph_of('\u{2229}'), color_pair(128, 128, 128, 0, 64, 64)),
        }
    }
}

/// The theme chosen for a generated level.
#[derive(Clone, Copy, Debug, PartialEq, Eq, Structural)]
pub enum Theme {
    Dungeon,
    Forest,
}

impl Theme {
    pub open spec fn look_spec(&self, tile_type: TileType) -> (char, ColorPair) {
        match self {
            Theme::Dungeon => dungeon_look(tile_type),
            Theme::Forest => forest_look(tile_type),
        }
    }

    pub fn tile_to_render(&self, tile_type: TileType) -> (r: (u16, ColorPair))
        ensures
            r.0 == cp437_of(self.look_spec(tile_type).0),
            (' ' <= self.look_spec(tile_type).0 <= '~') ==> r.0 == self.look_spec(tile_type).0 as u16,
            r.1 == self.look_spec(tile_type).1,
    {
        match self {
            Theme::Dungeon => DungeonTheme::new().tile_to_render(tile_type),
            Theme::Forest => ForestTheme::new().tile_to_render(tile_type),
        }
    }
}

} // verus!
