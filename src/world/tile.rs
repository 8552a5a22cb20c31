//! The tile registry: tiles by name, each with the handle of its texture.
use vstd::prelude::*;

verus! {

/// One kind of ground cell: a name and the handle of the texture that draws it.
pub struct Tile {
    pub name: String,
    pub texture: u32,
}

/// ASCII lower case of a byte; other bytes stay as they are.
pub open spec fn ascii_lower(b: u8) -> u8 {
    if 65 <= b <= 90 {
        (b + 32) as u8
    } else {
        b
    }
}

/// Two byte strings that are equal when ASCII letters are compared without case.
pub open spec fn same_name(a: Seq<u8>, b: Seq<u8>) -> bool {
    a.len() == b.len() && forall|i: int| 0 <= i < a.len() ==> ascii_lower(#[trigger] a[i]) == ascii_lower(b[i])
}

/// The UTF-8 bytes of a name.
pub open spec fn name_bytes(s: Seq<char>) -> Seq<u8> {
    vstd::utf8::encode_utf8(s)
}

impl Tile {
    /// Whether this tile and `other` are the same tile.
    pub open spec fn same_as(&self, other: &Tile) -> bool {
        self.name@ == other.name@ && self.texture == other.texture
    }

    /// A copy of the tile.
    pub fn duplicate(&self) -> (r: Tile)
        ensures
            r.same_as(self),
    {
        Tile { name: self.name.clone(), texture: self.texture }
    }
}

fn lower_byte(b: u8) -> (r: u8)
    ensures
        r == ascii_lower(b),
{
    if 65 <= b && b <= 90 {
        b + 32
    } else {
        b
    }
}

/// Whether `a` and `b` are equal when ASCII letters are compared without case.
pub fn names_match(a: &str, b: &str) -> (r: bool)
    ensures
        r == same_name(name_bytes(a@), name_bytes(b@)),
{
    let x = a.as_bytes();
    let y = b.as_bytes();
    if x.len() != y.len() {
        return false;
    }
    let mut i: usize = 0;
    while i < x.len()
        invariant
            x@ == name_bytes(a@),
            y@ == name_bytes(b@),
            x@.len() == y@.len(),
            i <= x@.len(),
            forall|k: int| 0 <= k < i ==> ascii_lower(#[trigger] x@[k]) == ascii_lower(y@[k]),
        decreases x@.len() - i,
    {
        if lower_byte(x[i]) != lower_byte(y[i]) {
            return false;
        }
        i = i + 1;
    }
    true
}

/// Index of the first tile whose name matches `name`, if any.
pub open spec fn first_match(tiles: Seq<Tile>, name: Seq<u8>) -> Option<int> {
    if exists|i: int| 0 <= i < tiles.len() && same_name(name_bytes(#[trigger] tiles[i].name@), name) {
        Some(choose|i: int| 0 <= i < tiles.len() && same_name(name_bytes(#[trigger] tiles[i].name@), name)
            && forall|j: int| 0 <= j < i ==> !same_name(name_bytes(#[trigger] tiles[j].name@), name))
    } else {
        None
    }
}

/// Registered tiles, in the order of registration.
pub struct TileManager {
    tiles: Vec<Tile>,
}

impl TileManager {
    /// The registered tiles.
    pub closed spec fn tiles(&self) -> Seq<Tile> {
        self.tiles@
    }

    /// Whether a tile of this name (ASCII case aside) is registered.
    pub open spec fn has(&self, name: Seq<u8>) -> bool {
        exists|i: int| 0 <= i < self.tiles().len() && same_name(name_bytes(#[trigger] self.tiles()[i].name@), name)
    }

    pub fn new() -> (r: TileManager)
        ensures
            r.tiles() == Seq::<Tile>::empty(),
    {
        TileManager { tiles: Vec::new() }
    }

    /// Registers a tile under `tile_name`, drawn with the texture `texture`.
    pub fn register_tile(&mut self, tile_name: &str, texture: u32)
        ensures
            final(self).tiles().len() == old(self).tiles().len() + 1,
            final(self).tiles().subrange(0, old(self).tiles().len() as int) == old(self).tiles(),
            final(self).tiles().last().name@ == tile_name@,
            final(self).tiles().last().texture == texture,
    {
        let tile = Tile { name: tile_name.to_string(), texture };
        self.tiles.push(tile);
        proof {
            assert(self.tiles@.subrange(0, old(self).tiles@.len() as int) =~= old(self).tiles@);
        }
    }

    /// The first registered tile whose name equals `tile_name`, ASCII case aside.
    pub fn get_tile(&self, tile_name: &str) -> (r: Result<Tile, ()>)
        ensures
            match first_match(self.tiles(), name_bytes(tile_name@)) {
                Some(i) => r is Ok && r->Ok_0.same_as(&self.tiles()[i]),
                None => r is Err,
            },
            r is Ok <==> self.has(name_bytes(tile_name@)),
    {
        let mut i: usize = 0;
        while i < self.tiles.len()
            invariant
                i <= self.tiles@.len(),
                forall|j: int| 0 <= j < i ==> !same_name(name_bytes(#[trigger] self.tiles@[j].name@), name_bytes(tile_name@)),
            decreases self.tiles@.len() - i,
        {
            let t = &self.tiles[i];
            let tname = t.name.as_str();
            if names_match(tname, tile_name) {
                let ghost idx = first_match(self.tiles(), name_bytes(tile_name@));
                proof {
                    assert(same_name(name_bytes(self.tiles@[i as int].name@), name_bytes(tile_name@)));
                    let k = idx.unwrap();
                    if k != i {
                        assert(k < i || k > i);
                    }
                }
                return Ok(t.duplicate());
            }
            i = i + 1;
        }
        Err(())
    }
}

} // verus!
