//! Format-agnostic repository of decoded textures.  The renderer and world
//! logic interact through `TextureId` only.

use vstd::prelude::*;
use vstd::std_specs::hash::group_hash_axioms;
use vstd::string::StringSliceAdditionalSpecFns;
use std::collections::HashMap;
use crate::text::str_eq;

verus! {

broadcast use group_hash_axioms;

/// Runtime handle for a texture in a bank; stable for the bank's lifetime.
pub type TextureId = u16;

/// `TextureId` whose pixels are the checkerboard fallback: always 0,
/// because a new bank inserts it first.
pub const NO_TEXTURE: TextureId = 0;

/// CPU-side storage: palette indices in row-major order.
#[derive(Clone, Debug, PartialEq)]
pub struct Texture {
    pub name: String,
    pub w: usize,
    pub h: usize,
    pub pixels: Vec<u8>,
}

/// Palette index at column `x`, row `y` of the 8×8 checkerboard.
pub open spec fn checker_texel(x: int, y: int) -> u8 {
    if (x + y) % 2 == 0 {
        8
    } else {
        16
    }
}

/// The name the checkerboard texture carries.
pub open spec fn checker_name() -> Seq<char> {
    seq!['C', 'H', 'E', 'C', 'K', 'E', 'R']
}

/// `t` is the 8×8 checkerboard named `CHECKER`.
pub open spec fn is_checker(t: Texture) -> bool {
    &&& t.name@ == checker_name()
    &&& t.w == 8
    &&& t.h == 8
    &&& t.pixels@.len() == 64
    &&& forall|x: int, y: int| 0 <= x < 8 && 0 <= y < 8 ==> #[trigger] t.pixels@[y * 8 + x] == checker_texel(x, y)
}

/// Convenience checkerboard 8×8 (light/dark grey palette entries 8 and 16).
impl Default for Texture {
    fn default() -> (t: Self)
        ensures
            is_checker(t),
    {
        let mut pix: Vec<u8> = vec![0u8; 64];
        let mut y: usize = 0;
        while y < 8
            invariant
                y <= 8,
                pix@.len() == 64,
                forall|xx: int, yy: int| 0 <= xx < 8 && 0 <= yy < y ==> #[trigger] pix@[yy * 8 + xx] == checker_texel(xx, yy),
            decreases 8 - y,
        {
            let mut x: usize = 0;
            while x < 8
                invariant
                    y < 8,
                    x <= 8,
                    pix@.len() == 64,
                    forall|xx: int, yy: int| 0 <= xx < 8 && 0 <= yy < y ==> #[trigger] pix@[yy * 8 + xx] == checker_texel(xx, yy),
                    forall|xx: int| 0 <= xx < x ==> #[trigger] pix@[y * 8 + xx] == checker_texel(xx, y as int),
                decreases 8 - x,
            {
                let v: u8 = if (x ^ y) & 1 == 0 { 8 } else { 16 };
                assert(((x ^ y) & 1 == 0) == ((x + y) % 2 == 0)) by (bit_vector)
                    requires x < 8 && y < 8;
                pix.set(y * 8 + x, v);
                x += 1;
            }
            y += 1;
        }
        let name = "CHECKER";
        proof {
            reveal_strlit("CHECKER");
            assert(name@ =~= checker_name());
        }
        Texture { name: name.to_owned(), w: 8, h: 8, pixels: pix }
    }
}

/// Things that can go wrong when using the bank.
#[derive(Debug, PartialEq, Eq)]
pub enum TextureError {
    /// Attempted to insert a second texture with an existing name.
    Duplicate(String),
    /// Requested id is outside `0 .. bank.len()`.
    BadId(TextureId),
}

/// 256 palette entries, each 0x00RRGGBB.
pub struct Palette(pub [u32; 256]);

impl Default for Palette {
    fn default() -> (p: Self)
        ensures
            forall|i: int| 0 <= i < 256 ==> #[trigger] p.0@[i] == 0,
    {
        Palette([0u32; 256])
    }
}

/// 34 light-level tables, each mapping a palette index to a palette index.
pub struct Colormap(pub [[u8; 256]; 34]);

impl Default for Colormap {
    fn default() -> (c: Self)
        ensures
            forall|t: int, i: int| 0 <= t < 34 && 0 <= i < 256 ==> #[trigger] c.0@[t]@[i] == 0,
    {
        Colormap([[0u8; 256]; 34])
    }
}

/// Packed sprite key: (code, frame, rotation).
pub type SpriteKey = u64;

/// Cached sprite frame: (texture id, mirrored?).
pub type SpriteVal = (TextureId, bool);

/// Big-endian packing of the first four bytes of a sprite code.
pub open spec fn spec_pack_code(b: Seq<u8>) -> int {
    b[0] as int * 16777216 + b[1] as int * 65536 + b[2] as int * 256 + b[3] as int
}

/// Key of (code, frame byte, rotation): the packed code above 16 bits of
/// frame and rotation.
pub open spec fn spec_sprite_key(code: Seq<u8>, frame: u8, rot: u8) -> u64 {
    (spec_pack_code(code) * 65536 + frame as int * 256 + rot as int) as u64
}

/// Sprite code packed into a `u32` (the code is four ASCII bytes such as
/// "TROO").
pub fn pack_sprite_code(code: &str) -> (r: u32)
    requires
        code.spec_bytes().len() >= 4,
    ensures
        r as int == spec_pack_code(code.spec_bytes()),
{
    let b = code.as_bytes();
    let b0 = b[0];
    let b1 = b[1];
    let b2 = b[2];
    let b3 = b[3];
    let r = (b0 as u32) << 24 | (b1 as u32) << 16 | (b2 as u32) << 8 | (b3 as u32);
    assert(r == b0 as u32 * 16777216 + b1 as u32 * 65536 + b2 as u32 * 256 + b3 as u32) by (bit_vector)
        requires
            r == (b0 as u32) << 24 | (b1 as u32) << 16 | (b2 as u32) << 8 | (b3 as u32),
    ;
    r
}

/// Sprite cache key of (code, frame, rotation); the frame is truncated to
/// its low byte.
pub fn sprite_key(code: &str, frame: char, rot: u8) -> (r: SpriteKey)
    requires
        code.spec_bytes().len() >= 4,
    ensures
        r == spec_sprite_key(code.spec_bytes(), frame as u8, rot),
{
    let p = pack_sprite_code(code);
    let f = frame as u8;
    let r = ((p as u64) << 16) | ((f as u64) << 8) | rot as u64;
    assert(r == p as u64 * 65536 + f as u64 * 256 + rot as u64) by (bit_vector)
        requires
            r == ((p as u64) << 16) | ((f as u64) << 8) | rot as u64,
    ;
    r
}

/// What `sprite_id` yields for the cache `m`: the exact (code, frame, rot)
/// entry, else the billboard (rotation 0) entry unmirrored when `rot` is
/// not 0, else the missing texture.
pub open spec fn sprite_lookup(m: Map<SpriteKey, SpriteVal>, key: SpriteKey, key0: SpriteKey, rot: u8) -> SpriteVal {
    if m.contains_key(key) {
        m[key]
    } else if rot != 0 && m.contains_key(key0) {
        (m[key0].0, false)
    } else {
        (NO_TEXTURE, false)
    }
}

/// What registering sprite lump `name` (as bytes) under `id` does to the cache:
/// a 6-byte name `CCCCFR` maps (code, F, R) to `(id, false)`; an 8-byte
/// name `CCCCFRFS` maps (code, F, R) to `(id, false)` and then (code, F, S)
/// to `(id, true)`; other names leave it unchanged.
pub open spec fn spec_register(m: Map<SpriteKey, SpriteVal>, name: Seq<u8>, id: TextureId) -> Map<SpriteKey, SpriteVal> {
    if name.len() == 6 {
        m.insert(spec_sprite_key(name, name[4], (name[5] - 48) as u8), (id, false))
    } else if name.len() == 8 {
        m.insert(spec_sprite_key(name, name[4], (name[5] - 48) as u8), (id, false)).insert(
            spec_sprite_key(name, name[4], (name[7] - 48) as u8),
            (id, true),
        )
    } else {
        m
    }
}

/// The name under which the fallback texture is registered.
pub open spec fn missing_name() -> Seq<char> {
    seq!['M', 'I', 'S', 'S', 'I', 'N', 'G']
}

/// No name occurs twice in `names`.
pub open spec fn names_distinct(names: Seq<Seq<char>>) -> bool {
    forall|i: int, j: int| 0 <= i < names.len() && 0 <= j < names.len() && i != j ==> names[i] != names[j]
}

/// A palette-agnostic, format-agnostic cache of textures.
///
/// * Stores exactly one copy of every name.
/// * ID 0 is always the "missing" checkerboard, registered as `MISSING`.
pub struct TextureBank {
    names: Vec<String>,
    data: Vec<Texture>,
    palette: Palette,
    colormap: Colormap,
    /// Pre-computed [ shade<<8 | color ] -> ARGB.
    shade_table: Vec<u32>,
    sprite_cache: HashMap<SpriteKey, SpriteVal>,
}

impl TextureBank {
    /// Names of the stored textures; the id of a texture is its position.
    pub closed spec fn names(&self) -> Seq<Seq<char>> {
        self.names@.map_values(|n: String| n@)
    }

    /// Stored textures, indexed by id.
    pub closed spec fn textures(&self) -> Seq<Texture> {
        self.data@
    }

    /// Current palette.
    pub closed spec fn palette(&self) -> Seq<u32> {
        self.palette.0@
    }

    /// Current colormap tables.
    pub closed spec fn colormap(&self) -> Seq<Seq<u8>> {
        self.colormap.0@.map_values(|row: [u8; 256]| row@)
    }

    /// Pre-computed shade table.
    pub closed spec fn shades(&self) -> Seq<u32> {
        self.shade_table@
    }

    /// Sprite cache: (code, frame, rot) key -> (texture id, mirrored?).
    pub closed spec fn sprites(&self) -> Map<SpriteKey, SpriteVal> {
        self.sprite_cache@
    }

    /// Bank invariant: one distinct name per texture, `MISSING` at id 0.
    pub open spec fn wf(&self) -> bool {
        &&& self.names().len() == self.textures().len()
        &&& self.textures().len() >= 1
        &&& self.names()[0] == missing_name()
        &&& names_distinct(self.names())
    }

    /// Position of `name` in `names()`, when present.
    pub open spec fn has_name_at(&self, name: Seq<char>, i: int) -> bool {
        0 <= i < self.names().len() && self.names()[i] == name
    }

    /*──────────────────────────── constructors ───────────────────────────*/

    /// Create a bank holding only `missing_tex`, registered as `MISSING`
    /// with id 0.
    pub fn new(missing_tex: Texture) -> (b: Self)
        ensures
            b.wf(),
            b.names() == seq![missing_name()],
            b.textures() == seq![missing_tex],
            b.shades().len() == 0,
            b.sprites() == Map::<SpriteKey, SpriteVal>::empty(),
            forall|i: int| 0 <= i < 256 ==> #[trigger] b.palette()[i] == 0,
            forall|t: int, i: int| 0 <= t < 34 && 0 <= i < 256 ==> #[trigger] b.colormap()[t][i] == 0,
    {
        let missing = "MISSING";
        proof {
            reveal_strlit("MISSING");
            assert(missing@ =~= missing_name());
        }
        let mut names: Vec<String> = Vec::new();
        names.push(missing.to_owned());
        let mut data: Vec<Texture> = Vec::new();
        data.push(missing_tex);
        let b = Self {
            names,
            data,
            palette: Palette::default(),
            colormap: Colormap::default(),
            shade_table: Vec::new(),
            sprite_cache: HashMap::new(),
        };
        assert(b.names() =~= seq![missing_name()]);
        assert(b.textures() =~= seq![missing_tex]);
        b
    }

    /// Replace the palette.
    pub fn set_palette(&mut self, palette: Palette)
        ensures
            final(self).palette() == palette.0@,
            final(self).names() == old(self).names(),
            final(self).textures() == old(self).textures(),
            final(self).colormap() == old(self).colormap(),
            final(self).shades() == old(self).shades(),
            final(self).sprites() == old(self).sprites(),
    {
        self.palette = palette;
    }

    /// Replace the colormap.
    pub fn set_colormap(&mut self, colormap: Colormap)
        ensures
            final(self).colormap() == colormap.0@.map_values(|row: [u8; 256]| row@),
            final(self).names() == old(self).names(),
            final(self).textures() == old(self).textures(),
            final(self).palette() == old(self).palette(),
            final(self).shades() == old(self).shades(),
            final(self).sprites() == old(self).sprites(),
    {
        self.colormap = colormap;
    }

    /// A bank whose fallback texture is the 8×8 checkerboard.
    pub fn default_with_checker() -> (b: Self)
        ensures
            b.wf(),
            b.names() == seq![missing_name()],
            b.textures().len() == 1,
            is_checker(b.textures()[0]),
            b.shades().len() == 0,
            b.sprites() == Map::<SpriteKey, SpriteVal>::empty(),
    {
        Self::new(Texture::default())
    }

    /*──────────────────────────── queries ────────────────────────────────*/

    /// Number of textures stored (including the "missing" one).
    pub fn len(&self) -> (n: usize)
        ensures
            n == self.textures().len(),
    {
        self.data.len()
    }

    /// True when only the "missing" texture is stored.
    pub fn is_empty(&self) -> (b: bool)
        ensures
            b == (self.textures().len() == 1),
    {
        self.data.len() == 1
    }

    /// Id of a loaded texture by name; `None` if the name is unknown.
    pub fn id(&self, name: &str) -> (r: Option<TextureId>)
        requires
            self.wf(),
        ensures
            match r {
                Some(i) => exists|p: int| #[trigger] self.has_name_at(name@, p) && i == p as u16,
                None => !self.names().contains(name@),
            },
    {
        let mut p: usize = 0;
        while p < self.names.len()
            invariant
                p <= self.names@.len(),
                self.names().len() == self.names@.len(),
                forall|q: int| 0 <= q < p ==> self.names()[q] != name@,
            decreases self.names@.len() - p,
        {
            if str_eq(self.names[p].as_str(), name) {
                assert(self.has_name_at(name@, p as int));
                return Some(p as TextureId);
            }
            p += 1;
        }
        None
    }

    /// Fallback-safe query: unknown names resolve to the checkerboard id.
    pub fn id_or_missing(&self, name: &str) -> (r: TextureId)
        requires
            self.wf(),
        ensures
            self.names().contains(name@) ==> exists|p: int| #[trigger] self.has_name_at(name@, p) && r == p as u16,
            !self.names().contains(name@) ==> r == NO_TEXTURE,
    {
        match self.id(name) {
            Some(i) => {
                proof {
                    let p = choose|p: int| #[trigger] self.has_name_at(name@, p) && i == p as u16;
                    assert(self.names()[p] == name@);
                }
                i
            },
            None => NO_TEXTURE,
        }
    }

    /// Borrow a texture by id, with bounds checking.
    pub fn texture(&self, id: TextureId) -> (r: Result<&Texture, TextureError>)
        ensures
            match r {
                Ok(t) => (id as int) < self.textures().len() && *t == self.textures()[id as int],
                Err(TextureError::BadId(b)) => (id as int) >= self.textures().len() && b == id,
                Err(_) => false,
            },
    {
        if (id as usize) < self.data.len() {
            Ok(&self.data[id as usize])
        } else {
            Err(TextureError::BadId(id))
        }
    }

    /// Mutable borrow of a texture by id, with bounds-checking; what is
    /// written through the borrow becomes the texture stored under `id`.
    pub fn texture_mut(&mut self, id: TextureId) -> (r: Result<&mut Texture, TextureError>)
        ensures
            match r {
                Ok(t) => {
                    &&& (id as int) < old(self).textures().len()
                    &&& *t == old(self).textures()[id as int]
                    &&& final(self).textures() == old(self).textures().update(id as int, *final(t))
                    &&& final(self).names() == old(self).names()
                    &&& final(self).palette() == old(self).palette()
                    &&& final(self).colormap() == old(self).colormap()
                    &&& final(self).shades() == old(self).shades()
                    &&& final(self).sprites() == old(self).sprites()
                },
                Err(TextureError::BadId(b)) => {
                    &&& (id as int) >= old(self).textures().len()
                    &&& b == id
                    &&& *final(self) == *old(self)
                },
                Err(_) => false,
            },
    {
        if (id as usize) < self.data.len() {
            Ok(&mut self.data[id as usize])
        } else {
            Err(TextureError::BadId(id))
        }
    }

    /*──────────────────────────── mutations ──────────────────────────────*/

    /// Insert a texture under `name`.
    ///
    /// * Returns the newly assigned id: the number of textures stored
    ///   before, as a `TextureId`.
    /// * Fails, leaving the bank unchanged, if the name already exists.
    pub fn insert(&mut self, name: &str, tex: Texture) -> (r: Result<TextureId, TextureError>)
        requires
            old(self).wf(),
        ensures
            final(self).wf(),
            final(self).palette() == old(self).palette(),
            final(self).colormap() == old(self).colormap(),
            final(self).shades() == old(self).shades(),
            final(self).sprites() == old(self).sprites(),
            match r {
                Ok(i) => {
                    &&& !old(self).names().contains(name@)
                    &&& i == old(self).textures().len() as u16
                    &&& final(self).names() == old(self).names().push(name@)
                    &&& final(self).textures() == old(self).textures().push(tex)
                },
                Err(TextureError::Duplicate(n)) => {
                    &&& old(self).names().contains(name@)
                    &&& n@ == name@
                    &&& final(self).names() == old(self).names()
                    &&& final(self).textures() == old(self).textures()
                },
                Err(_) => false,
            },
    {
        if self.id(name).is_some() {
            proof {
                let p = choose|p: int| #[trigger] self.has_name_at(name@, p);
                assert(self.names()[p] == name@);
            }
            return Err(TextureError::Duplicate(name.to_owned()));
        }
        let id = self.data.len() as TextureId;
        let ghost old_names = self.names();
        self.data.push(tex);
        self.names.push(name.to_owned());
        proof {
            assert(self.names() =~= old_names.push(name@));
            assert forall|i: int, j: int|
                0 <= i < self.names().len() && 0 <= j < self.names().len() && i != j implies self.names()[i]
                != self.names()[j] by {
                if i < old_names.len() && j < old_names.len() {
                } else if i == old_names.len() {
                    assert(old_names[j] != name@);
                } else {
                    assert(old_names[i] != name@);
                }
            }
        }
        Ok(id)
    }

    /// Pre-compute the shade table: entry `row * 256 + texel` is the palette
    /// colour of the colormap entry of `texel` in light table `row`.
    pub fn build_shade_table(&mut self)
        ensures
            final(self).shades().len() == 34 * 256,
            forall|row: int, texel: int|
                0 <= row < 34 && 0 <= texel < 256 ==> #[trigger] final(self).shades()[row * 256 + texel]
                    == old(self).palette()[old(self).colormap()[row][texel] as int],
            final(self).names() == old(self).names(),
            final(self).textures() == old(self).textures(),
            final(self).palette() == old(self).palette(),
            final(self).colormap() == old(self).colormap(),
            final(self).sprites() == old(self).sprites(),
    {
        self.shade_table.clear();
        let mut row: usize = 0;
        while row < 34
            invariant
                row <= 34,
                self.names() == old(self).names(),
                self.textures() == old(self).textures(),
                self.palette() == old(self).palette(),
                self.colormap() == old(self).colormap(),
                self.sprites() == old(self).sprites(),
                self.shades().len() == row * 256,
                forall|r: int, t: int|
                    0 <= r < row && 0 <= t < 256 ==> #[trigger] self.shades()[r * 256 + t] == self.palette()[self.colormap()[r][t] as int],
            decreases 34 - row,
        {
            let mut texel: usize = 0;
            while texel < 256
                invariant
                    row < 34,
                    texel <= 256,
                    self.names() == old(self).names(),
                    self.textures() == old(self).textures(),
                    self.palette() == old(self).palette(),
                    self.colormap() == old(self).colormap(),
                    self.sprites() == old(self).sprites(),
                    self.shades().len() == row * 256 + texel,
                    forall|r: int, t: int|
                        0 <= r < row && 0 <= t < 256 ==> #[trigger] self.shades()[r * 256 + t] == self.palette()[self.colormap()[r][t] as int],
                    forall|t: int|
                        0 <= t < texel ==> #[trigger] self.shades()[row * 256 + t] == self.palette()[self.colormap()[row as int][t] as int],
                decreases 256 - texel,
            {
                let pal_idx = self.colormap.0[row][texel];
                let argb = self.palette.0[pal_idx as usize];
                proof {
                    assert(pal_idx == self.colormap()[row as int][texel as int]);
                }
                self.shade_table.push(argb);
                texel += 1;
            }
            row += 1;
        }
    }

    /// Register sprite lump `lump_name` (e.g. `TROOA6`, `POSSB8B2`) under
    /// texture `id`: the first rotation is stored as is, the second of an
    /// 8-byte name as mirrored; names of other lengths are ignored.
    pub fn register_sprite_lump(&mut self, lump_name: &str, id: TextureId)
        requires
            lump_name.spec_bytes().len() == 6 || lump_name.spec_bytes().len() == 8 ==> vstd::utf8::is_char_boundary(lump_name.spec_bytes(), 4),
            lump_name.spec_bytes().len() == 6 || lump_name.spec_bytes().len() == 8 ==> lump_name.spec_bytes()[5] >= 48,
            lump_name.spec_bytes().len() == 8 ==> lump_name.spec_bytes()[7] >= 48,
        ensures
            final(self).sprites() == spec_register(old(self).sprites(), lump_name.spec_bytes(), id),
            final(self).names() == old(self).names(),
            final(self).textures() == old(self).textures(),
            final(self).palette() == old(self).palette(),
            final(self).colormap() == old(self).colormap(),
            final(self).shades() == old(self).shades(),
    {
        let bytes = lump_name.as_bytes();
        let n = bytes.len();
        if n == 6 {
            let (code, _) = lump_name.split_at(4);
            let frame = bytes[4] as char;
            let rot = bytes[5] - 48;
            let key = sprite_key(code, frame, rot);
            proof {
                assert(code.spec_bytes() =~= bytes@.subrange(0, 4));
                assert(frame as u8 == bytes@[4]);
                assert(key == spec_sprite_key(bytes@, bytes@[4], (bytes@[5] - 48) as u8));
            }
            self.sprite_cache.insert(key, (id, false));
        } else if n == 8 {
            let (code, _) = lump_name.split_at(4);
            let frame = bytes[4] as char;
            let r1 = bytes[5] - 48;
            let r2 = bytes[7] - 48;
            let k1 = sprite_key(code, frame, r1);
            let k2 = sprite_key(code, frame, r2);
            proof {
                assert(code.spec_bytes() =~= bytes@.subrange(0, 4));
                assert(frame as u8 == bytes@[4]);
            }
            self.sprite_cache.insert(k1, (id, false));
            self.sprite_cache.insert(k2, (id, true));
        }
    }

    /// Sprite frame lookup: the exact rotation, else the rotation-0
    /// billboard (never mirrored), else `(NO_TEXTURE, false)`.
    pub fn sprite_id(&self, code: &str, frame: char, rot: u8) -> (r: (TextureId, bool))
        requires
            code.spec_bytes().len() >= 4,
        ensures
            r == sprite_lookup(
                self.sprites(),
                spec_sprite_key(code.spec_bytes(), frame as u8, rot),
                spec_sprite_key(code.spec_bytes(), frame as u8, 0),
                rot,
            ),
    {
        let key = sprite_key(code, frame, rot);
        match self.sprite_cache.get(&key) {
            Some(v) => {
                return *v;
            },
            None => {},
        }
        if rot != 0 {
            let key0 = sprite_key(code, frame, 0);
            match self.sprite_cache.get(&key0) {
                Some(v) => {
                    return (v.0, false);
                },
                None => {},
            }
        }
        (NO_TEXTURE, false)
    }

    /// Shade-table lookup for light level `shade_idx` and palette index `texel`.
    pub fn get_color(&self, shade_idx: u8, texel: u8) -> (c: u32)
        requires
            (shade_idx as int) * 256 + (texel as int) < self.shades().len(),
        ensures
            c == self.shades()[(shade_idx as int) * 256 + (texel as int)],
    {
        let i = (shade_idx as usize) << 8 | (texel as usize);
        assert(i == (shade_idx as usize) * 256 + (texel as usize)) by (bit_vector)
            requires
                i == (shade_idx as usize) << 8 | (texel as usize),
        ;
        self.shade_table[i]
    }
}

/*──────────────────────────── laws ─────────────────────────────────*/

/// In a well-formed bank the fallback texture is registered under
/// `MISSING` at id 0, and under no other id.
pub proof fn law_missing_is_id_zero(b: TextureBank)
    requires
        b.wf(),
    ensures
        b.has_name_at(missing_name(), NO_TEXTURE as int),
        forall|p: int| b.has_name_at(missing_name(), p) ==> p == NO_TEXTURE as int,
{
}

/// Inserting a new name appends it: the name is then found at the next id
/// and at no other, and every earlier id keeps its name and texture.
pub proof fn law_insert_then_lookup(a: TextureBank, b: TextureBank, name: Seq<char>, t: Texture)
    requires
        a.wf(),
        b.wf(),
        !a.names().contains(name),
        b.names() == a.names().push(name),
        b.textures() == a.textures().push(t),
    ensures
        b.has_name_at(name, a.names().len() as int),
        b.textures()[a.names().len() as int] == t,
        forall|p: int| b.has_name_at(name, p) ==> p == a.names().len(),
        forall|p: int|
            0 <= p < a.names().len() ==> #[trigger] b.names()[p] == a.names()[p] && b.textures()[p] == a.textures()[p],
{
    assert(b.names()[a.names().len() as int] == name);
    assert forall|p: int| b.has_name_at(name, p) implies p == a.names().len() by {
        if p < a.names().len() {
            assert(a.names()[p] == name);
        }
    }
}

/// A sprite key names its rotation: keys of the same code and frame differ
/// when the rotations do.
pub proof fn lemma_sprite_key_rot(code: Seq<u8>, frame: u8, r1: u8, r2: u8)
    requires
        code.len() >= 4,
        spec_sprite_key(code, frame, r1) == spec_sprite_key(code, frame, r2),
    ensures
        r1 == r2,
{
    let c = spec_pack_code(code);
    assert(0 <= c < 0x1_0000_0000int);
    assert(c * 65536 + (frame as int) * 256 + (r1 as int) < 0x1_0000_0000_0000_0000int) by (nonlinear_arith)
        requires
            0 <= c < 0x1_0000_0000int,
            frame < 256,
            r1 < 256,
    ;
    assert(c * 65536 + (frame as int) * 256 + (r2 as int) < 0x1_0000_0000_0000_0000int) by (nonlinear_arith)
        requires
            0 <= c < 0x1_0000_0000int,
            frame < 256,
            r2 < 256,
    ;
    assert(0 <= c * 65536) by (nonlinear_arith)
        requires
            0 <= c,
    ;
}

/// After registering a 6-byte sprite name `CCCCFR`, looking up its code,
/// frame and rotation gives the id, unmirrored; after an 8-byte name
/// `CCCCFRFS`, rotation S gives the id mirrored and rotation R the id,
/// mirrored only when R and S are the same rotation.
pub proof fn law_register_then_lookup(m: Map<SpriteKey, SpriteVal>, name: Seq<u8>, id: TextureId)
    requires
        name.len() == 6 || name.len() == 8,
        name[5] >= 48,
        name.len() == 8 ==> name[7] >= 48,
    ensures
        ({
            let r1 = (name[5] - 48) as u8;
            let k1 = spec_sprite_key(name, name[4], r1);
            let k10 = spec_sprite_key(name, name[4], 0);
            name.len() == 6 ==> sprite_lookup(spec_register(m, name, id), k1, k10, r1) == (id, false)
        }),
        ({
            let r1 = (name[5] - 48) as u8;
            let r2 = (name[7] - 48) as u8;
            let k1 = spec_sprite_key(name, name[4], r1);
            let k2 = spec_sprite_key(name, name[4], r2);
            let k0 = spec_sprite_key(name, name[4], 0);
            name.len() == 8 ==> {
                &&& sprite_lookup(spec_register(m, name, id), k2, k0, r2) == (id, true)
                &&& sprite_lookup(spec_register(m, name, id), k1, k0, r1) == (id, r1 == r2)
            }
        }),
{
    if name.len() == 8 {
        let r1 = (name[5] - 48) as u8;
        let r2 = (name[7] - 48) as u8;
        if spec_sprite_key(name, name[4], r1) == spec_sprite_key(name, name[4], r2) {
            lemma_sprite_key_rot(name, name[4], r1, r2);
        }
    }
}

} // verus!
