//! The tiles of the atlas, by key.
use crate::tile::{AtlasKey, AtlasTextureKind, AtlasTile};
use std::collections::HashMap;
use vstd::prelude::*;

verus! {

broadcast use vstd::std_specs::hash::group_hash_axioms;

/// A number for each kind.
pub open spec fn kind_number(kind: AtlasTextureKind) -> int {
    match kind {
        AtlasTextureKind::Monochrome => 0,
        AtlasTextureKind::Polychrome => 1,
        AtlasTextureKind::Image => 2,
        AtlasTextureKind::ImageSmall => 3,
        AtlasTextureKind::Subpixel => 4,
    }
}

/// A number for each key, which no other key of an image has, or no other key of anything
/// else.
pub open spec fn key_number(key: AtlasKey) -> int {
    match key {
        AtlasKey::Image(params) => params.image_id.0 * 0x1_0000_0000_0000_0000
            + params.frame_index,
        AtlasKey::DynamicTexture(params) => 16 * params.texture_id + 2 * kind_number(
            params.texture_kind,
        ),
        AtlasKey::Resource(params) => 16 * params.resource_id + 2 * kind_number(
            params.texture_kind,
        ) + 1,
    }
}

/// Two keys with the same number are the same, if both are images or neither is.
proof fn lemma_key_number(a: AtlasKey, b: AtlasKey)
    requires
        a is Image <==> b is Image,
        key_number(a) == key_number(b),
    ensures
        a == b,
{
}

/// Tiles by key.
pub struct TileMap {
    images: HashMap<u128, AtlasTile>,
    others: HashMap<u128, AtlasTile>,
}

impl View for TileMap {
    type V = Map<AtlasKey, AtlasTile>;

    closed spec fn view(&self) -> Map<AtlasKey, AtlasTile> {
        Map::new(
            |key: AtlasKey| self.table(key).contains_key(key_number(key) as u128),
            |key: AtlasKey| self.table(key)[key_number(key) as u128],
        )
    }
}

impl TileMap {
    /// The table that a key is looked up in.
    spec fn table(&self, key: AtlasKey) -> Map<u128, AtlasTile> {
        if key is Image {
            self.images@
        } else {
            self.others@
        }
    }

    /// The number of a key.
    fn number(key: &AtlasKey) -> (number: u128)
        ensures
            number == key_number(*key),
    {
        match key {
            AtlasKey::Image(params) => params.image_id.0 as u128 * 0x1_0000_0000_0000_0000
                + params.frame_index as u128,
            AtlasKey::DynamicTexture(params) => 16 * params.texture_id as u128 + 2
                * Self::number_of_kind(params.texture_kind),
            AtlasKey::Resource(params) => 16 * params.resource_id as u128 + 2
                * Self::number_of_kind(params.texture_kind) + 1,
        }
    }

    /// The number of a kind.
    fn number_of_kind(kind: AtlasTextureKind) -> (number: u128)
        ensures
            number == kind_number(kind),
    {
        match kind {
            AtlasTextureKind::Monochrome => 0,
            AtlasTextureKind::Polychrome => 1,
            AtlasTextureKind::Image => 2,
            AtlasTextureKind::ImageSmall => 3,
            AtlasTextureKind::Subpixel => 4,
        }
    }

    /// Whether a key is an image's.
    fn is_image(key: &AtlasKey) -> (image: bool)
        ensures
            image == (key is Image),
    {
        match key {
            AtlasKey::Image(_) => true,
            _ => false,
        }
    }

    /// No tiles.
    pub fn new() -> (tiles: TileMap)
        ensures
            tiles@ == Map::<AtlasKey, AtlasTile>::empty(),
    {
        let tiles = TileMap { images: HashMap::new(), others: HashMap::new() };
        assert(tiles@ =~= Map::<AtlasKey, AtlasTile>::empty());
        tiles
    }

    /// The tile of a key.
    pub fn get(&self, key: &AtlasKey) -> (tile: Option<&AtlasTile>)
        ensures
            match tile {
                None => !self@.contains_key(*key),
                Some(tile) => self@.contains_key(*key) && self@[*key] == *tile,
            },
    {
        let number: u128 = Self::number(key);
        if Self::is_image(key) {
            self.images.get(&number)
        } else {
            self.others.get(&number)
        }
    }

    /// Gives a key a tile, in place of any that it has.
    pub fn insert(&mut self, key: AtlasKey, tile: AtlasTile)
        ensures
            final(self)@ == old(self)@.insert(key, tile),
    {
        let number: u128 = Self::number(&key);
        if Self::is_image(&key) {
            self.images.insert(number, tile);
        } else {
            self.others.insert(number, tile);
        }
        assert forall|other: AtlasKey| other != key && (other is Image <==> key is Image) implies
            key_number(other) as u128 != number by {
            Self::lemma_key_number_fits(other);
            if key_number(other) == key_number(key) {
                lemma_key_number(other, key);
            }
        }
        assert(self@ =~= old(self)@.insert(key, tile));
    }

    /// Takes the tile of a key away.
    pub fn remove(&mut self, key: &AtlasKey) -> (tile: Option<AtlasTile>)
        ensures
            final(self)@ == old(self)@.remove(*key),
            tile == if old(self)@.contains_key(*key) {
                Some(old(self)@[*key])
            } else {
                None
            },
    {
        let number: u128 = Self::number(key);
        let tile = if Self::is_image(key) {
            self.images.remove(&number)
        } else {
            self.others.remove(&number)
        };
        assert forall|other: AtlasKey| other != *key && (other is Image <==> key is Image) implies
            key_number(other) as u128 != number by {
            Self::lemma_key_number_fits(other);
            if key_number(other) == key_number(*key) {
                lemma_key_number(other, *key);
            }
        }
        assert(self@ =~= old(self)@.remove(*key));
        tile
    }

    /// The number of a key has 128 bits.
    proof fn lemma_key_number_fits(key: AtlasKey)
        ensures
            0 <= key_number(key) <= u128::MAX,
    {
    }
}

} // verus!
