//! Direct-colour textures for a renderer that draws `0x00RRGGBB` pixels:
//! patches expanded through the palette, wall textures composed from
//! TEXTURE1/TEXTURE2, flats between the flat markers, all kept in a table
//! keyed by normalised name.

use vstd::prelude::*;
use vstd::utf8::*;
use crate::wad::{Wad, lump_data, lump_in_bounds, name_end, trimmed_name};
use crate::text::{ascii_upper, str_from_utf8, str_to_ascii_uppercase};
use crate::loader::{playpal_name, rgb_at};
use crate::le::{u32_le, i16_le, read_u16_at, read_u32_at, read_i16_at};
use crate::chartext::{string_from_chars, to_chars, trim, trim_set, CharSet};
use crate::patch::{column_start, post_offset, lemma_grid_bound, lemma_grid_inj, patch_h, patch_ok, patch_w, posts_ok};

verus! {

/*──────────────────────────── textures ─────────────────────────────*/

/// A `w`×`h` picture of `0x00RRGGBB` pixels in row-major order.
pub struct Texture {
    pub w: usize,
    pub h: usize,
    pub pix: Vec<u32>,
}

/// Colour of cell `(x, y)` of the 64×64 fallback: 8×8 blocks alternating
/// light blue and light red.
pub open spec fn checker_rgb(x: int, y: int) -> u32 {
    if (x / 8 + y / 8) % 2 == 0 {
        0x007F7FFF
    } else {
        0x00FF7F7F
    }
}

/// `t` is the 64×64 fallback checkerboard.
pub open spec fn is_rgb_checker(t: Texture) -> bool {
    &&& t.w == 64
    &&& t.h == 64
    &&& t.pix@.len() == 64 * 64
    &&& forall|x: int, y: int| 0 <= x < 64 && 0 <= y < 64 ==> #[trigger] t.pix@[y * 64 + x] == checker_rgb(x, y)
}

/// The 64×64 fallback checkerboard.
pub fn checker() -> (t: Texture)
    ensures
        is_rgb_checker(t),
{
    let w: usize = 64;
    let h: usize = 64;
    let mut p: Vec<u32> = vec![0u32; w * h];
    let mut y: usize = 0;
    while y < h
        invariant
            w == 64,
            h == 64,
            y <= h,
            p@.len() == 64 * 64,
            forall|xx: int, yy: int| 0 <= xx < 64 && 0 <= yy < y ==> #[trigger] p@[yy * 64 + xx] == checker_rgb(xx, yy),
        decreases h - y,
    {
        let mut x: usize = 0;
        while x < w
            invariant
                w == 64,
                h == 64,
                y < h,
                x <= w,
                p@.len() == 64 * 64,
                forall|xx: int, yy: int| 0 <= xx < 64 && 0 <= yy < y ==> #[trigger] p@[yy * 64 + xx] == checker_rgb(xx, yy),
                forall|xx: int| 0 <= xx < x ==> #[trigger] p@[y * 64 + xx] == checker_rgb(xx, y as int),
            decreases w - x,
        {
            let c: u32 = if (x / 8 + y / 8) & 1 == 0 { 0x007F7FFF } else { 0x00FF7F7F };
            let s = x / 8 + y / 8;
            assert((s & 1 == 0) == (s % 2 == 0)) by (bit_vector);
            p.set(y * w + x, c);
            x += 1;
        }
        y += 1;
    }
    Texture { w, h, pix: p }
}

/*──────────────────────────── the table ────────────────────────────*/

/// Textures by name; inserting a name that is present replaces its texture.
pub struct TextureTable {
    names: Vec<String>,
    textures: Vec<Texture>,
}

impl TextureTable {
    /// The names, in insertion order.
    pub closed spec fn keys(&self) -> Seq<Seq<char>> {
        self.names@.map_values(|n: String| n@)
    }

    /// One name per texture, no name twice.
    pub closed spec fn wf(&self) -> bool {
        &&& self.names@.len() == self.textures@.len()
        &&& self.keys().no_duplicates()
    }

    /// The table as a map from name to texture.
    pub closed spec fn view(&self) -> Map<Seq<char>, Texture> {
        Map::new(|k: Seq<char>| self.keys().contains(k), |k: Seq<char>| self.textures@[self.keys().index_of(k)])
    }

    /// An empty table.
    pub fn new() -> (t: Self)
        ensures
            t.wf(),
            t.view() == Map::<Seq<char>, Texture>::empty(),
    {
        let t = TextureTable { names: Vec::new(), textures: Vec::new() };
        assert(t.keys() =~= Seq::<Seq<char>>::empty());
        assert(t.view() =~= Map::<Seq<char>, Texture>::empty());
        t
    }

    /// Position of `name`, if present.
    fn position(&self, name: &str) -> (r: Option<usize>)
        requires
            self.wf(),
        ensures
            match r {
                Some(p) => p < self.keys().len() && self.keys()[p as int] == name@,
                None => !self.keys().contains(name@),
            },
    {
        let mut p: usize = 0;
        while p < self.names.len()
            invariant
                p <= self.names@.len(),
                self.keys().len() == self.names@.len(),
                forall|q: int| 0 <= q < p ==> self.keys()[q] != name@,
            decreases self.names@.len() - p,
        {
            if crate::text::str_eq(self.names[p].as_str(), name) {
                return Some(p);
            }
            p += 1;
        }
        None
    }

    /// Number of textures.
    pub fn len(&self) -> (n: usize)
        requires
            self.wf(),
        ensures
            n == self.view().dom().len(),
    {
        proof {
            self.lemma_dom_len();
        }
        self.names.len()
    }

    /// The map's domain has one key per stored name.
    proof fn lemma_dom_len(&self)
        requires
            self.wf(),
        ensures
            self.view().dom() == self.keys().to_set(),
            self.view().dom().len() == self.names@.len(),
    {
        assert(self.view().dom() =~= self.keys().to_set());
        self.keys().unique_seq_to_set();
    }

    /// The texture stored under `name`.
    pub fn get(&self, name: &str) -> (r: Option<&Texture>)
        requires
            self.wf(),
        ensures
            match r {
                Some(t) => self.view().contains_key(name@) && *t == self.view()[name@],
                None => !self.view().contains_key(name@),
            },
    {
        match self.position(name) {
            Some(p) => {
                proof {
                    let i = self.keys().index_of(name@);
                    assert(self.keys()[i] == name@);
                    assert(i == p);
                }
                Some(&self.textures[p])
            },
            None => None,
        }
    }

    /// Store `t` under `name`, replacing what was there.
    pub fn insert(&mut self, name: String, t: Texture)
        requires
            old(self).wf(),
        ensures
            final(self).wf(),
            final(self).view() == old(self).view().insert(name@, t),
    {
        let ghost k0 = self.keys();
        let ghost v0 = self.textures@;
        match self.position(name.as_str()) {
            Some(p) => {
                self.textures.set(p, t);
                proof {
                    assert(self.keys() == k0);
                    assert forall|k: Seq<char>| #[trigger] self.view().contains_key(k) implies self.view()[k] == old(
                        self,
                    ).view().insert(name@, t)[k] by {
                        let i = k0.index_of(k);
                        assert(k0[i] == k);
                        if k == name@ {
                            assert(i == p);
                        }
                    }
                    assert(self.view() =~= old(self).view().insert(name@, t));
                }
            },
            None => {
                self.names.push(name);
                self.textures.push(t);
                proof {
                    let k1 = self.keys();
                    assert(k1 =~= k0.push(name@));
                    assert forall|a: int, b: int| 0 <= a < b < k1.len() implies k1[a] != k1[b] by {
                        if b == k0.len() {
                            assert(k0.contains(k0[a]));
                        }
                    }
                    assert forall|k: Seq<char>| #[trigger] self.view().contains_key(k) implies self.view()[k] == old(
                        self,
                    ).view().insert(name@, t)[k] by {
                        let i = k1.index_of(k);
                        assert(k1[i] == k);
                        if k == name@ {
                            assert(i == k0.len());
                        } else {
                            let j = k0.index_of(k);
                            assert(k0[j] == k);
                            assert(k1[j] == k);
                            assert(i == j);
                        }
                    }
                    assert forall|k: Seq<char>| k1.contains(k) <==> (k0.contains(k) || k == name@) by {
                        if k0.contains(k) {
                            let j = choose|j: int| 0 <= j < k0.len() && k0[j] == k;
                            assert(k1[j] == k);
                        }
                        if k == name@ {
                            assert(k1[k0.len() as int] == k);
                        }
                        if k1.contains(k) {
                            let i = choose|i: int| 0 <= i < k1.len() && k1[i] == k;
                            if i < k0.len() {
                                assert(k0[i] == k);
                            }
                        }
                    }
                    assert(self.view().dom() =~= old(self).view().insert(name@, t).dom());
                    assert(self.view() =~= old(self).view().insert(name@, t));
                }
            },
        }
    }
}

/*──────────────────────────── names ────────────────────────────────*/

/// `s` without its leading and trailing NULs and spaces.
pub open spec fn trim_pad(s: Seq<char>) -> Seq<char> {
    trim_set(s, CharSet::Padding)
}

/// A name as the texture table keys it: padding trimmed, upper-cased.
pub open spec fn norm_spec(s: Seq<char>) -> Seq<char> {
    trim_pad(s).map_values(|c: char| ascii_upper(c))
}

/// Normalise a name: trim NUL and space padding, upper-case ASCII letters.
pub fn norm(name: &str) -> (r: String)
    ensures
        r@ == norm_spec(name@),
{
    let t = string_from_chars(&trim(&to_chars(name), CharSet::Padding));
    str_to_ascii_uppercase(t.as_str())
}

/// The text of name bytes up to the first NUL, or `MISSING` when they are
/// not valid UTF-8.
pub open spec fn name_text(b: Seq<u8>) -> Seq<char> {
    if valid_utf8(trimmed_name(b)) {
        decode_utf8(trimmed_name(b))
    } else {
        seq!['M', 'I', 'S', 'S', 'I', 'N', 'G']
    }
}

/// Text of the bytes up to the first NUL (or all of them); `MISSING` when
/// they are not UTF-8.
pub fn lump_name(bytes: &[u8]) -> (r: &str)
    ensures
        r@ == name_text(bytes@),
{
    let n = bytes.len();
    let mut end: usize = 0;
    while end < n && bytes[end] != 0
        invariant
            n == bytes@.len(),
            0 <= end <= n,
            name_end(bytes@, 0) == name_end(bytes@, end as int),
        decreases n - end,
    {
        end += 1;
    }
    let t = &bytes[0..end];
    assert(t@ == trimmed_name(bytes@));
    match str_from_utf8(t) {
        Some(s) => s,
        None => {
            let m = "MISSING";
            proof {
                reveal_strlit("MISSING");
                assert(m@ =~= seq!['M', 'I', 'S', 'S', 'I', 'N', 'G']);
            }
            m
        },
    }
}

/// Text of an 8-byte name up to the first NUL; `MISSING` when it is not
/// UTF-8.
pub fn str_from(b: &[u8; 8]) -> (r: &str)
    ensures
        r@ == name_text(b@),
{
    lump_name(b.as_slice())
}

/// The palette from PLAYPAL, which must be there and hold 256 colours.
pub fn load_palette(w: &Wad) -> (pal: [u32; 256])
    requires
        w.well_formed(),
        w.lump_named(playpal_name()) matches Some(d) && d.len() >= 768,
    ensures
        w.lump_named(playpal_name()) matches Some(d) && forall|i: int| 0 <= i < 256 ==> #[trigger] pal@[i] == rgb_at(d, i),
{
    let name = "PLAYPAL";
    proof {
        reveal_strlit("PLAYPAL");
        assert(name@ =~= playpal_name());
    }
    let found = w.find_lump(name);
    proof {
        if found is None {
            if exists|i: int| w.last_named(name@, i) {
                let c = choose|i: int| w.last_named(name@, i);
                assert(crate::wad::lump_name_view(w.lumps@[c].name@) == name@);
            }
        }
    }
    let idx = found.unwrap();
    proof {
        let c = choose|i: int| w.last_named(name@, i);
        w.lemma_last_named_unique(name@, c, idx as int);
    }
    let lump = w.lump_bytes(idx).unwrap();
    assert(lump@ == lump_data(w.bytes@, w.lumps@[idx as int]));
    let mut pal = [0u32; 256];
    let mut i: usize = 0;
    while i < 256
        invariant
            lump@.len() >= 768,
            i <= 256,
            forall|k: int| 0 <= k < i ==> #[trigger] pal@[k] == rgb_at(lump@, k),
        decreases 256 - i,
    {
        let r = lump[i * 3];
        let g = lump[i * 3 + 1];
        let b = lump[i * 3 + 2];
        let c: u32 = (r as u32) << 16 | (g as u32) << 8 | b as u32;
        assert(c == r as u32 * 65536 + g as u32 * 256 + b as u32) by (bit_vector)
            requires
                c == (r as u32) << 16 | (g as u32) << 8 | b as u32,
        ;
        pal[i] = c;
        i += 1;
    }
    pal
}

/*──────────────────────────── patches ──────────────────────────────*/

/// Colour row `y` of a column ends with, when it holds `acc` before the
/// posts that start at byte `p`: each post that covers the row overwrites
/// it with the palette colour of its byte.
pub open spec fn column_rgb(raw: Seq<u8>, pal: Seq<u32>, p: int, y: int, acc: u32) -> u32
    decreases raw.len() - p,
{
    if !(0 <= p && p + 1 < raw.len()) || raw[p] == 0xFF {
        acc
    } else {
        let row = raw[p] as int;
        let len = raw[p + 1] as int;
        let v = if row <= y < row + len { pal[raw[p + 3 + y - row] as int] } else { acc };
        let next = p + len + 4;
        if next < raw.len() {
            column_rgb(raw, pal, next, y, v)
        } else {
            v
        }
    }
}

/// Colour at column `x`, row `y` of a patch; 0 where no post covers it.
pub open spec fn patch_rgb(raw: Seq<u8>, pal: Seq<u32>, x: int, y: int) -> u32 {
    column_rgb(raw, pal, column_start(raw, x), y, 0)
}

/// `t` is the patch `raw` expanded through `pal`.
pub open spec fn decodes_rgb(t: Texture, raw: Seq<u8>, pal: Seq<u32>) -> bool {
    &&& t.w as int == patch_w(raw)
    &&& t.h as int == patch_h(raw)
    &&& t.pix@.len() == t.w * t.h
    &&& forall|x: int, y: int|
        0 <= x < t.w && 0 <= y < t.h ==> #[trigger] t.pix@[y * t.w + x] == patch_rgb(raw, pal, x, y)
}

/// A patch expanded through `pal` is as wide and high as its header
/// says, and a column made of a single post (start row `r`, length `n`,
/// a pad byte, `n` bytes, a pad byte, then the `0xFF` end mark) holds the
/// palette colour of byte `i` of the post at row `r + i`, row-major, and
/// 0 on every other row.
pub proof fn law_rgb_single_post(t: Texture, raw: Seq<u8>, pal: Seq<u32>, x: int)
    requires
        patch_ok(raw),
        decodes_rgb(t, raw, pal),
        0 <= x < t.w,
        raw[post_offset(raw, x)] != 0xFF,
        raw[post_offset(raw, x) + raw[post_offset(raw, x) + 1] + 4] == 0xFF,
    ensures
        t.w as int == raw[0] as int + 256 * raw[1] as int,
        t.h as int == raw[2] as int + 256 * raw[3] as int,
        forall|y: int|
            0 <= y < t.h ==> #[trigger] t.pix@[y * t.w + x] == ({
                let p = post_offset(raw, x);
                let r = raw[p] as int;
                if r <= y < r + raw[p + 1] as int {
                    pal[raw[p + 3 + y - r] as int]
                } else {
                    0u32
                }
            }),
{
    let p = post_offset(raw, x);
    assert(column_start(raw, x) == p);
    assert(posts_ok(raw, column_start(raw, x), patch_h(raw)));
    assert forall|y: int| 0 <= y < t.h implies #[trigger] t.pix@[y * t.w + x] == ({
        let r = raw[p] as int;
        if r <= y < r + raw[p + 1] as int {
            pal[raw[p + 3 + y - r] as int]
        } else {
            0u32
        }
    }) by {
        assert(t.pix@[y * t.w + x] == patch_rgb(raw, pal, x, y));
        let next = p + raw[p + 1] as int + 4;
        assert(next < raw.len());
        assert(column_rgb(raw, pal, p, y, 0) == column_rgb(
            raw,
            pal,
            next,
            y,
            if raw[p] as int <= y < raw[p] as int + raw[p + 1] as int {
                pal[raw[p + 3 + y - raw[p] as int] as int]
            } else {
                0u32
            },
        ));
    }
}

/// Decode a patch (Doom picture format) into a row-major grid of palette
/// colours; pixels that no post covers are 0.
pub fn decode_patch(raw: &[u8], pal: &[u32; 256]) -> (t: Texture)
    requires
        patch_ok(raw@),
    ensures
        decodes_rgb(t, raw@, pal@),
{
    let w = read_u16_at(raw, 0) as usize;
    let h = read_u16_at(raw, 2) as usize;
    assert(w * h <= 65535 * 65535) by (nonlinear_arith)
        requires
            w <= 65535,
            h <= 65535,
    ;
    let rlen = raw.len();
    let mut pix: Vec<u32> = vec![0u32; w * h];
    proof {
        assert forall|xx: int, yy: int| 0 <= xx < w && 0 <= yy < h implies #[trigger] pix@[yy * w + xx] == 0 by {
            lemma_grid_bound(w as int, h as int, xx, yy);
        }
    }
    let mut x: usize = 0;
    while x < w
        invariant
            patch_ok(raw@),
            w as int == patch_w(raw@),
            h as int == patch_h(raw@),
            w <= 65535,
            h <= 65535,
            x <= w,
            pix@.len() == w * h,
            rlen == raw@.len(),
            w * h <= 4294836225,
            forall|xx: int, yy: int|
                0 <= xx < x && 0 <= yy < h ==> #[trigger] pix@[yy * w + xx] == patch_rgb(raw@, pal@, xx, yy),
            forall|xx: int, yy: int| x <= xx < w && 0 <= yy < h ==> #[trigger] pix@[yy * w + xx] == 0,
        decreases w - x,
    {
        let p0 = read_u32_at(raw, 8 + x * 4) as usize;
        let ghost start = pix@;
        let mut p: usize = p0;
        assert(posts_ok(raw@, column_start(raw@, x as int), h as int));
        loop
            invariant_except_break
                posts_ok(raw@, p as int, h as int),
            invariant
                patch_ok(raw@),
                w as int == patch_w(raw@),
                h as int == patch_h(raw@),
                w <= 65535,
                h <= 65535,
                x < w,
                p0 as int == column_start(raw@, x as int),
                pix@.len() == w * h,
                start.len() == w * h,
                rlen == raw@.len(),
                w * h <= 4294836225,
                forall|yy: int|
                    0 <= yy < h ==> column_rgb(raw@, pal@, p0 as int, yy, 0) == column_rgb(
                        raw@,
                        pal@,
                        p as int,
                        yy,
                        #[trigger] pix@[yy * w + x],
                    ),
                forall|xx: int, yy: int|
                    0 <= xx < w && xx != x && 0 <= yy < h ==> #[trigger] pix@[yy * w + xx] == start[yy * w + xx],
                forall|yy: int| 0 <= yy < h ==> #[trigger] start[yy * w + x] == 0,
            ensures
                forall|yy: int|
                    0 <= yy < h ==> column_rgb(raw@, pal@, p0 as int, yy, 0) == #[trigger] pix@[yy * w + x],
            decreases raw@.len() - p,
        {
            let row = raw[p] as usize;
            if row == 0xFF {
                break;
            }
            let len = raw[p + 1] as usize;
            let ghost post = p as int;
            let ghost before = pix@;
            p += 3;
            let mut i: usize = 0;
            while i < len
                invariant
                    w as int == patch_w(raw@),
                    h as int == patch_h(raw@),
                    w <= 65535,
                    h <= 65535,
                    x < w,
                    i <= len,
                    0 <= post,
                    rlen == raw@.len(),
                    post + 1 < raw@.len(),
                    raw@[post] != 0xFF,
                    posts_ok(raw@, post, h as int),
                    len == raw@[post + 1],
                    row == raw@[post],
                    w * h <= 4294836225,
                    len == 0 || row + len <= h,
                    p == post + 3,
                    p + len <= raw@.len(),
                    pix@.len() == w * h,
                    forall|yy: int| row <= yy < row + i ==> #[trigger] pix@[yy * w + x] == pal@[raw@[p + yy - row] as int],
                    forall|xx: int, yy: int|
                        0 <= xx < w && 0 <= yy < h && !(xx == x && row <= yy < row + i) ==> #[trigger] pix@[yy * w + xx]
                            == before[yy * w + xx],
                decreases len - i,
            {
                proof {
                    lemma_grid_bound(w as int, h as int, x as int, (row + i) as int);
                }
                let k = (row + i) * w + x;
                let ghost prev = pix@;
                pix[k] = pal[raw[p + i] as usize];
                proof {
                    assert forall|yy: int| row <= yy < row + i + 1 implies #[trigger] pix@[yy * w + x] == pal@[raw@[p + yy - row] as int] by {
                        lemma_grid_bound(w as int, h as int, x as int, yy);
                        if yy < row + i {
                            if yy * w + x == k {
                                lemma_grid_inj(w as int, x as int, yy, x as int, (row + i) as int);
                            }
                            assert(prev[yy * w + x] == pal@[raw@[p + yy - row] as int]);
                        }
                    }
                    assert forall|xx: int, yy: int|
                        0 <= xx < w && 0 <= yy < h && !(xx == x && row <= yy < row + i + 1) implies #[trigger] pix@[yy * w + xx]
                        == before[yy * w + xx] by {
                        lemma_grid_bound(w as int, h as int, xx, yy);
                        if yy * w + xx == k {
                            lemma_grid_inj(w as int, xx, yy, x as int, (row + i) as int);
                        }
                        assert(prev[yy * w + xx] == before[yy * w + xx]);
                    }
                }
                i += 1;
            }
            p += len + 1;
            proof {
                assert forall|yy: int| 0 <= yy < h implies column_rgb(raw@, pal@, p0 as int, yy, 0) == column_rgb(
                    raw@,
                    pal@,
                    p as int,
                    yy,
                    #[trigger] pix@[yy * w + x],
                ) by {
                    lemma_grid_bound(w as int, h as int, x as int, yy);
                    assert(column_rgb(raw@, pal@, post, yy, before[yy * w + x]) == column_rgb(
                        raw@,
                        pal@,
                        p as int,
                        yy,
                        pix@[yy * w + x],
                    ));
                    if row <= yy < row + len {
                        assert(pix@[yy * w + x] == pal@[raw@[post + 3 + yy - row] as int]);
                    } else {
                        assert(pix@[yy * w + x] == before[yy * w + x]);
                    }
                }
            }
        }
        proof {
            assert forall|xx: int, yy: int|
                0 <= xx <= x && 0 <= yy < h implies #[trigger] pix@[yy * w + xx] == patch_rgb(raw@, pal@, xx, yy) by {
                if xx < x {
                    assert(pix@[yy * w + xx] == start[yy * w + xx]);
                }
            }
        }
        x += 1;
    }
    Texture { w, h, pix }
}

/*──────────────────────────── wall textures ────────────────────────*/

/// `PNAMES`, the list of patch names.
pub open spec fn pnames_lump_name() -> Seq<char> {
    seq!['P', 'N', 'A', 'M', 'E', 'S']
}

/// Patch name `i` of a PNAMES lump: the text from byte `4 + 8i` up to the
/// next NUL, normalised.
pub open spec fn pname_at(d: Seq<u8>, i: int) -> Seq<char> {
    norm_spec(name_text(d.subrange(4 + 8 * i, d.len() as int)))
}

/// Number of names of a PNAMES lump.
pub open spec fn pname_count(d: Seq<u8>) -> int {
    u32_le(d, 0)
}

/// The colour a patch contributes at `(px, py)`: its pixel there when the
/// point lies inside it and the colour is not 0.
pub open spec fn opaque_rgb(raw: Seq<u8>, pal: Seq<u32>, px: int, py: int) -> Option<u32> {
    if 0 <= px < patch_w(raw) && 0 <= py < patch_h(raw) && patch_rgb(raw, pal, px, py) != 0 {
        Some(patch_rgb(raw, pal, px, py))
    } else {
        None
    }
}

/// Entry `t` of a TEXTUREx lump: the bytes from its offset to the end.
pub open spec fn table_entry_at(l: Seq<u8>, t: int) -> Seq<u8> {
    l.subrange(u32_le(l, 4 + 4 * t), l.len() as int)
}

/// Normalised name of a TEXTUREx entry.
pub open spec fn entry_key(e: Seq<u8>) -> Seq<char> {
    norm_spec(name_text(e.subrange(0, 8)))
}

/// Colour at `(x, y)` of the canvas of entry `e` after its first `k`
/// placements: the last placed patch (found by name in the WAD) whose
/// pixel there is a non-zero colour wins; 0 where none is.
pub open spec fn canvas_rgb(wad: &Wad, d: Seq<u8>, pal: Seq<u32>, e: Seq<u8>, k: int, x: int, y: int) -> u32
    decreases k,
{
    if k <= 0 {
        0
    } else {
        let at = 22 + 10 * (k - 1);
        let below = canvas_rgb(wad, d, pal, e, k - 1, x, y);
        match wad.lump_named(pname_at(d, i16_le(e, at + 4) as int)) {
            Some(raw) => match opaque_rgb(raw, pal, x - i16_le(e, at) as int, y - i16_le(e, at + 2) as int) {
                Some(c) => c,
                None => below,
            },
            None => below,
        }
    }
}

/// `t` is the wall texture entry `e` composes.
pub open spec fn rgb_composes(t: Texture, wad: &Wad, d: Seq<u8>, pal: Seq<u32>, e: Seq<u8>) -> bool {
    &&& t.w as int == i16_le(e, 12) as int
    &&& t.h as int == i16_le(e, 14) as int
    &&& t.pix@.len() == t.w * t.h
    &&& forall|x: int, y: int|
        0 <= x < t.w && 0 <= y < t.h ==> #[trigger] t.pix@[y * t.w + x] == canvas_rgb(
            wad,
            d,
            pal,
            e,
            i16_le(e, 20) as int,
            x,
            y,
        )
}

/// Entry `e` can be read and composed with a list of `n` patch names.
pub open spec fn rgb_entry_ok(e: Seq<u8>, n: int) -> bool {
    &&& 22 <= e.len()
    &&& i16_le(e, 12) >= 0
    &&& i16_le(e, 14) >= 0
    &&& i16_le(e, 20) >= 0
    &&& 22 + 10 * (i16_le(e, 20) as int) <= e.len()
    &&& forall|k: int|
        0 <= k < i16_le(e, 20) ==> 0 <= #[trigger] i16_le(e, 22 + 10 * k + 4) < n
}

/// A TEXTUREx lump whose every entry can be composed with `n` patch names.
pub open spec fn rgb_table_ok(l: Seq<u8>, n: int) -> bool {
    &&& l.len() >= 4
    &&& u32_le(l, 0) <= 0x7FFF_FFFF
    &&& 4 + 4 * u32_le(l, 0) <= l.len()
    &&& forall|t: int|
        0 <= t < u32_le(l, 0) ==> #[trigger] u32_le(l, 4 + 4 * t) <= 0x7FFF_FFFF && u32_le(l, 4 + 4 * t) <= l.len()
            && rgb_entry_ok(table_entry_at(l, t), n)
}

/// Entry `t` is the last of the first `n` entries of `l` keyed `k`.
pub open spec fn last_keyed(l: Seq<u8>, k: Seq<char>, n: int, t: int) -> bool {
    &&& 0 <= t < n
    &&& entry_key(table_entry_at(l, t)) == k
    &&& forall|j: int| t < j < n ==> entry_key(#[trigger] table_entry_at(l, j)) != k
}

/// The last of the first `n` entries of `l` keyed `k`, if any.
pub open spec fn last_keyed_entry(l: Seq<u8>, k: Seq<char>, n: int) -> Option<Seq<u8>> {
    if exists|t: int| last_keyed(l, k, n, t) {
        Some(table_entry_at(l, choose|t: int| last_keyed(l, k, n, t)))
    } else {
        None
    }
}

/// The entry keyed `k` in an optional table lump (all of its entries).
pub open spec fn table_keyed(l: Option<Seq<u8>>, k: Seq<char>) -> Option<Seq<u8>> {
    match l {
        Some(l) => last_keyed_entry(l, k, u32_le(l, 0)),
        None => None,
    }
}

/// The TEXTUREx entry that defines `k`: the last so keyed in TEXTURE2,
/// else the last in TEXTURE1.
pub open spec fn final_entry(wad: &Wad, k: Seq<char>) -> Option<Seq<u8>> {
    let b = table_keyed(wad.lump_named(crate::loader::texture2_name()), k);
    if b is Some {
        b
    } else {
        table_keyed(wad.lump_named(crate::loader::texture1_name()), k)
    }
}

/// The name the fallback is stored under.
pub open spec fn checker_key() -> Seq<char> {
    seq!['C', 'H', 'E', 'C', 'K', 'E', 'R']
}

/// What `build_textures` reads can be read: PNAMES with its names, each
/// patch it names that exists, and every entry of both texture tables.
pub open spec fn textures_input_ok(wad: &Wad) -> bool {
    match wad.lump_named(pnames_lump_name()) {
        Some(d) => {
            &&& d.len() >= 4
            &&& 4 + 8 * pname_count(d) <= d.len()
            &&& forall|i: int|
                0 <= i < pname_count(d) ==> (wad.lump_named(#[trigger] pname_at(d, i)) matches Some(raw) ==> patch_ok(raw))
            &&& (wad.lump_named(crate::loader::texture1_name()) matches Some(l) ==> rgb_table_ok(l, pname_count(d)))
            &&& (wad.lump_named(crate::loader::texture2_name()) matches Some(l) ==> rgb_table_ok(l, pname_count(d)))
        },
        None => false,
    }
}

/// The non-zero colour of `p` at `(px, py)`, if that point lies inside it.
pub open spec fn opaque_pix(p: Texture, px: int, py: int) -> Option<u32> {
    if 0 <= px < p.w && 0 <= py < p.h && p.pix@[py * p.w + px] != 0 {
        Some(p.pix@[py * p.w + px])
    } else {
        None
    }
}

/// Copy the non-zero pixels of `p`, placed at `(ox, oy)`, onto the
/// `dw`×`dh` canvas `dest`, clipping to it.
fn blit_rgb(dest: &mut Vec<u32>, dw: usize, dh: usize, p: &Texture, ox: i32, oy: i32)
    requires
        dw <= 32767,
        dh <= 32767,
        old(dest)@.len() == dw * dh,
        p.pix@.len() == p.w * p.h,
        p.w <= 65535,
        p.h <= 65535,
        -32768 <= ox <= 32767,
        -32768 <= oy <= 32767,
    ensures
        final(dest)@.len() == old(dest)@.len(),
        forall|x: int, y: int|
            0 <= x < dw && 0 <= y < dh ==> #[trigger] final(dest)@[y * dw + x] == match opaque_pix(*p, x - ox, y - oy) {
                Some(c) => c,
                None => old(dest)@[y * dw + x],
            },
{
    let ghost orig = dest@;
    let plen = p.pix.len();
    assert(dw * dh <= 0x4000_0000) by (nonlinear_arith)
        requires
            dw <= 32767,
            dh <= 32767,
    ;
    let mut py: usize = 0;
    while py < p.h
        invariant
            dw <= 32767,
            dh <= 32767,
            dest@.len() == dw * dh,
            dw * dh <= 0x4000_0000,
            orig.len() == dw * dh,
            p.pix@.len() == p.w * p.h,
            plen == p.pix@.len(),
            p.w <= 65535,
            p.h <= 65535,
            -32768 <= ox <= 32767,
            -32768 <= oy <= 32767,
            py <= p.h,
            forall|x: int, y: int|
                0 <= x < dw && 0 <= y < dh ==> #[trigger] dest@[y * dw + x] == if y - oy < py {
                    match opaque_pix(*p, x - ox, y - oy) {
                        Some(c) => c,
                        None => orig[y * dw + x],
                    }
                } else {
                    orig[y * dw + x]
                },
        decreases p.h - py,
    {
        let cy = oy + py as i32;
        if cy < 0 || cy >= dh as i32 {
            py += 1;
            continue;
        }
        let mut px: usize = 0;
        while px < p.w
            invariant
                dw <= 32767,
                dh <= 32767,
                dest@.len() == dw * dh,
                dw * dh <= 0x4000_0000,
                orig.len() == dw * dh,
                p.pix@.len() == p.w * p.h,
                plen == p.pix@.len(),
                p.w <= 65535,
                p.h <= 65535,
                -32768 <= ox <= 32767,
                py < p.h,
                cy == oy + py,
                0 <= cy < dh,
                px <= p.w,
                forall|x: int, y: int|
                    0 <= x < dw && 0 <= y < dh ==> #[trigger] dest@[y * dw + x] == if y - oy < py || (y - oy == py && x
                        - ox < px) {
                        match opaque_pix(*p, x - ox, y - oy) {
                            Some(c) => c,
                            None => orig[y * dw + x],
                        }
                    } else {
                        orig[y * dw + x]
                    },
            decreases p.w - px,
        {
            let cx = ox + px as i32;
            if cx < 0 || cx >= dw as i32 {
                proof {
                    assert forall|x: int, y: int| 0 <= x < dw && 0 <= y < dh implies #[trigger] dest@[y * dw + x] == if y
                        - oy < py || (y - oy == py && x - ox < px + 1) {
                        match opaque_pix(*p, x - ox, y - oy) {
                            Some(c) => c,
                            None => orig[y * dw + x],
                        }
                    } else {
                        orig[y * dw + x]
                    } by {}
                }
                px += 1;
                continue;
            }
            proof {
                lemma_grid_bound(p.w as int, p.h as int, px as int, py as int);
                lemma_grid_bound(dw as int, dh as int, cx as int, cy as int);
            }
            let col = p.pix[py * p.w + px];
            if col != 0 {
                let k = cy as usize * dw + cx as usize;
                let ghost prev = dest@;
                dest.set(k, col);
                proof {
                    assert forall|x: int, y: int| 0 <= x < dw && 0 <= y < dh implies #[trigger] dest@[y * dw + x] == if y
                        - oy < py || (y - oy == py && x - ox < px + 1) {
                        match opaque_pix(*p, x - ox, y - oy) {
                            Some(c) => c,
                            None => orig[y * dw + x],
                        }
                    } else {
                        orig[y * dw + x]
                    } by {
                        lemma_grid_bound(dw as int, dh as int, x, y);
                        if y * dw + x == k {
                            lemma_grid_inj(dw as int, x, y, cx as int, cy as int);
                        } else {
                            assert(prev[y * dw + x] == dest@[y * dw + x]);
                        }
                    }
                }
            } else {
                proof {
                    assert forall|x: int, y: int| 0 <= x < dw && 0 <= y < dh implies #[trigger] dest@[y * dw + x] == if y
                        - oy < py || (y - oy == py && x - ox < px + 1) {
                        match opaque_pix(*p, x - ox, y - oy) {
                            Some(c) => c,
                            None => orig[y * dw + x],
                        }
                    } else {
                        orig[y * dw + x]
                    } by {
                        lemma_grid_bound(dw as int, dh as int, x, y);
                    }
                }
            }
            px += 1;
        }
        py += 1;
    }
}

/// `m` holds, for each of the first `n` PNAMES names that a lump carries,
/// that lump decoded through `pal`, and nothing else.
pub open spec fn patch_table_ok(wad: &Wad, d: Seq<u8>, pal: Seq<u32>, m: Map<Seq<char>, Texture>, n: int) -> bool {
    &&& forall|k: Seq<char>|
        #[trigger] m.contains_key(k) <==> ((exists|i: int| 0 <= i < n && pname_at(d, i) == k) && wad.lump_named(k) is Some)
    &&& forall|k: Seq<char>|
        #[trigger] m.contains_key(k) ==> (wad.lump_named(k) matches Some(raw) && decodes_rgb(m[k], raw, pal))
}

/// Compose the TEXTUREx entry that starts at byte `off` of `lump`: its
/// normalised name and its canvas with every placed patch found in
/// `patches` blitted in order.
fn compose_entry(
    wad: &Wad,
    lump: &[u8],
    off: usize,
    pnames: &Vec<String>,
    patches: &TextureTable,
    pal: &[u32; 256],
    Ghost(d): Ghost<Seq<u8>>,
) -> (r: (String, Texture))
    requires
        off <= lump@.len(),
        rgb_entry_ok(lump@.subrange(off as int, lump@.len() as int), pnames@.len() as int),
        pnames@.len() == pname_count(d),
        forall|i: int| 0 <= i < pnames@.len() ==> (#[trigger] pnames@[i])@ == pname_at(d, i),
        patches.wf(),
        patch_table_ok(wad, d, pal@, patches.view(), pname_count(d)),
    ensures
        r.0@ == entry_key(lump@.subrange(off as int, lump@.len() as int)),
        rgb_composes(r.1, wad, d, pal@, lump@.subrange(off as int, lump@.len() as int)),
{
    let n = lump.len();
    let e = &lump[off..n];
    let name = norm(lump_name(&e[0..8]));
    let w_tex = read_i16_at(e, 12) as usize;
    let h_tex = read_i16_at(e, 14) as usize;
    let np = read_i16_at(e, 20) as usize;
    assert(w_tex * h_tex <= 32767 * 32767) by (nonlinear_arith)
        requires
            w_tex <= 32767,
            h_tex <= 32767,
    ;
    let mut canv: Vec<u32> = vec![0u32; w_tex * h_tex];
    proof {
        assert forall|x: int, y: int| 0 <= x < w_tex && 0 <= y < h_tex implies #[trigger] canv@[y * w_tex + x] == 0 by {
            lemma_grid_bound(w_tex as int, h_tex as int, x, y);
        }
    }
    let mut k: usize = 0;
    while k < np
        invariant
            rgb_entry_ok(e@, pnames@.len() as int),
            pnames@.len() == pname_count(d),
            forall|i: int| 0 <= i < pnames@.len() ==> (#[trigger] pnames@[i])@ == pname_at(d, i),
            patches.wf(),
            patch_table_ok(wad, d, pal@, patches.view(), pname_count(d)),
            w_tex as int == i16_le(e@, 12),
            h_tex as int == i16_le(e@, 14),
            np as int == i16_le(e@, 20),
            w_tex <= 32767,
            h_tex <= 32767,
            k <= np,
            canv@.len() == w_tex * h_tex,
            forall|x: int, y: int|
                0 <= x < w_tex && 0 <= y < h_tex ==> #[trigger] canv@[y * w_tex + x] == canvas_rgb(
                    wad,
                    d,
                    pal@,
                    e@,
                    k as int,
                    x,
                    y,
                ),
        decreases np - k,
    {
        let at = 22 + 10 * k;
        let ox = read_i16_at(e, at) as i32;
        let oy = read_i16_at(e, at + 2) as i32;
        assert(0 <= i16_le(e@, 22 + 10 * (k as int) + 4) < pnames@.len());
        let pidx = read_i16_at(e, at + 4) as usize;
        let pn = &pnames[pidx];
        let ghost key = pname_at(d, pidx as int);
        assert(pn@ == key);
        let ghost before = canv@;
        match patches.get(pn.as_str()) {
            Some(p) => {
                let ghost raw = wad.lump_named(key)->Some_0;
                assert(decodes_rgb(*p, raw, pal@));
                blit_rgb(&mut canv, w_tex, h_tex, p, ox, oy);
                proof {
                    assert forall|x: int, y: int| 0 <= x < w_tex && 0 <= y < h_tex implies #[trigger] canv@[y * w_tex + x]
                        == canvas_rgb(wad, d, pal@, e@, k + 1, x, y) by {
                        assert(before[y * w_tex + x] == canvas_rgb(wad, d, pal@, e@, k as int, x, y));
                        let px = x - ox;
                        let py = y - oy;
                        if 0 <= px < p.w && 0 <= py < p.h {
                            assert(p.pix@[py * p.w + px] == patch_rgb(raw, pal@, px, py));
                        }
                        assert(opaque_pix(*p, px, py) == opaque_rgb(raw, pal@, px, py));
                    }
                }
            },
            None => {
                proof {
                    assert(!patches.view().contains_key(key));
                    assert(wad.lump_named(key) is None);
                    assert forall|x: int, y: int| 0 <= x < w_tex && 0 <= y < h_tex implies #[trigger] canv@[y * w_tex + x]
                        == canvas_rgb(wad, d, pal@, e@, k + 1, x, y) by {}
                }
            },
        }
        k += 1;
    }
    assert(e@.subrange(0, 8) =~= lump@.subrange(off as int, lump@.len() as int).subrange(0, 8));
    (name, Texture { w: w_tex, h: h_tex, pix: canv })
}

/// Extending the scanned prefix by entry `t`: it becomes the last entry
/// keyed by its own key and changes nothing for other keys.
proof fn lemma_last_keyed_step(l: Seq<u8>, k: Seq<char>, t: int)
    requires
        0 <= t,
    ensures
        last_keyed_entry(l, k, t + 1) == if entry_key(table_entry_at(l, t)) == k {
            Some(table_entry_at(l, t))
        } else {
            last_keyed_entry(l, k, t)
        },
{
    let n1 = t + 1;
    if entry_key(table_entry_at(l, t)) == k {
        assert(last_keyed(l, k, n1, t));
        let c = choose|c: int| last_keyed(l, k, n1, c);
        if c < t {
            assert(entry_key(table_entry_at(l, t)) != k);
        }
    } else {
        if exists|c: int| last_keyed(l, k, n1, c) {
            let c = choose|c: int| last_keyed(l, k, n1, c);
            assert(c < t);
            assert(last_keyed(l, k, t, c));
            let c2 = choose|c2: int| last_keyed(l, k, t, c2);
            if c2 < c {
                assert(entry_key(table_entry_at(l, c)) != k);
            } else if c < c2 {
                assert(entry_key(table_entry_at(l, c2)) != k);
            }
        }
        if exists|c: int| last_keyed(l, k, t, c) {
            let c = choose|c: int| last_keyed(l, k, t, c);
            assert(last_keyed(l, k, n1, c));
        }
    }
}

/// Compose every entry of the table lump named `table_name`, if the WAD
/// has one, into `tbl`; a later entry of a name replaces an earlier one.
fn add_table(
    tbl: &mut TextureTable,
    wad: &Wad,
    table_name: &str,
    pnames: &Vec<String>,
    patches: &TextureTable,
    pal: &[u32; 256],
    Ghost(d): Ghost<Seq<u8>>,
)
    requires
        old(tbl).wf(),
        wad.well_formed(),
        wad.lump_named(table_name@) matches Some(l) ==> rgb_table_ok(l, pname_count(d)),
        pnames@.len() == pname_count(d),
        forall|i: int| 0 <= i < pnames@.len() ==> (#[trigger] pnames@[i])@ == pname_at(d, i),
        patches.wf(),
        patch_table_ok(wad, d, pal@, patches.view(), pname_count(d)),
    ensures
        final(tbl).wf(),
        forall|k: Seq<char>|
            #[trigger] final(tbl).view().contains_key(k) <==> (old(tbl).view().contains_key(k) || table_keyed(
                wad.lump_named(table_name@),
                k,
            ) is Some),
        forall|k: Seq<char>|
            #[trigger] table_keyed(wad.lump_named(table_name@), k) matches Some(e) ==> rgb_composes(
                final(tbl).view()[k],
                wad,
                d,
                pal@,
                e,
            ),
        forall|k: Seq<char>|
            table_keyed(wad.lump_named(table_name@), k) is None && old(tbl).view().contains_key(k)
                ==> #[trigger] final(tbl).view()[k] == old(tbl).view()[k],
{
    let idx = match wad.find_lump(table_name) {
        Some(i) => i,
        None => {
            proof {
                if exists|i: int| wad.last_named(table_name@, i) {
                    let c = choose|i: int| wad.last_named(table_name@, i);
                    assert(crate::wad::lump_name_view(wad.lumps@[c].name@) == table_name@);
                }
            }
            return;
        },
    };
    proof {
        let c = choose|i: int| wad.last_named(table_name@, i);
        wad.lemma_last_named_unique(table_name@, c, idx as int);
    }
    let lump = wad.lump_bytes(idx).unwrap();
    let ghost l = lump@;
    assert(wad.lump_named(table_name@) == Some(l));
    let llen = lump.len();
    let ntex = read_u32_at(lump, 0) as i32 as usize;
    let ghost m0 = tbl.view();
    let mut t: usize = 0;
    while t < ntex
        invariant
            tbl.wf(),
            lump@ == l,
            llen == l.len(),
            rgb_table_ok(l, pname_count(d)),
            ntex as int == u32_le(l, 0),
            t <= ntex,
            pnames@.len() == pname_count(d),
            forall|i: int| 0 <= i < pnames@.len() ==> (#[trigger] pnames@[i])@ == pname_at(d, i),
            patches.wf(),
            patch_table_ok(wad, d, pal@, patches.view(), pname_count(d)),
            forall|k: Seq<char>|
                #[trigger] tbl.view().contains_key(k) <==> (m0.contains_key(k) || last_keyed_entry(l, k, t as int) is Some),
            forall|k: Seq<char>|
                #[trigger] last_keyed_entry(l, k, t as int) matches Some(e) ==> rgb_composes(tbl.view()[k], wad, d, pal@, e),
            forall|k: Seq<char>|
                last_keyed_entry(l, k, t as int) is None && m0.contains_key(k) ==> #[trigger] tbl.view()[k] == m0[k],
        decreases ntex - t,
    {
        assert(u32_le(l, 4 + 4 * (t as int)) <= 0x7FFF_FFFF);
        let off = read_u32_at(lump, 4 + t * 4) as i32 as usize;
        let (name, tex) = compose_entry(wad, lump, off, pnames, patches, pal, Ghost(d));
        let ghost e = table_entry_at(l, t as int);
        let ghost v0 = tbl.view();
        tbl.insert(name, tex);
        proof {
            assert forall|k: Seq<char>|
                #[trigger] tbl.view().contains_key(k) <==> (m0.contains_key(k) || last_keyed_entry(l, k, t + 1) is Some) by {
                lemma_last_keyed_step(l, k, t as int);
            }
            assert forall|k: Seq<char>| (#[trigger] last_keyed_entry(l, k, t + 1)) is Some implies rgb_composes(
                tbl.view()[k],
                wad,
                d,
                pal@,
                last_keyed_entry(l, k, t + 1)->Some_0,
            ) by {
                lemma_last_keyed_step(l, k, t as int);
            }
            assert forall|k: Seq<char>| last_keyed_entry(l, k, t + 1) is None && m0.contains_key(k) implies #[trigger] tbl.view()[k]
                == m0[k] by {
                lemma_last_keyed_step(l, k, t as int);
            }
        }
        t += 1;
    }
}

/// Build the wall-texture table: decode every patch PNAMES names (through
/// `pal`), compose every entry of TEXTURE1 and then TEXTURE2 (a later
/// entry of a name replacing an earlier one), and add the checkerboard
/// under `CHECKER`.
pub fn build_textures(w: &Wad, pal: &[u32; 256]) -> (r: TextureTable)
    requires
        w.well_formed(),
        textures_input_ok(w),
    ensures
        r.wf(),
        forall|k: Seq<char>| #[trigger] r.view().contains_key(k) <==> (k == checker_key() || final_entry(w, k) is Some),
        is_rgb_checker(r.view()[checker_key()]),
        forall|k: Seq<char>|
            k != checker_key() && (#[trigger] final_entry(w, k)) is Some ==> rgb_composes(
                r.view()[k],
                w,
                w.lump_named(pnames_lump_name())->Some_0,
                pal@,
                final_entry(w, k)->Some_0,
            ),
{
    let pn = "PNAMES";
    proof {
        reveal_strlit("PNAMES");
        assert(pn@ =~= pnames_lump_name());
    }
    let found = w.find_lump(pn);
    proof {
        if found is None {
            let c = choose|i: int| w.last_named(pn@, i);
            assert(crate::wad::lump_name_view(w.lumps@[c].name@) == pn@);
        }
    }
    let idx = found.unwrap();
    proof {
        let c = choose|i: int| w.last_named(pn@, i);
        w.lemma_last_named_unique(pn@, c, idx as int);
    }
    let pbytes = w.lump_bytes(idx).unwrap();
    let ghost d = pbytes@;
    assert(w.lump_named(pnames_lump_name()) == Some(d));
    let plen = pbytes.len();
    let n = read_u32_at(pbytes, 0) as usize;
    let mut pnames: Vec<String> = Vec::new();
    let mut i: usize = 0;
    while i < n
        invariant
            pbytes@ == d,
            plen == d.len(),
            n as int == pname_count(d),
            4 + 8 * pname_count(d) <= d.len(),
            i <= n,
            pnames@.len() == i,
            forall|j: int| 0 <= j < i ==> (#[trigger] pnames@[j])@ == pname_at(d, j),
        decreases n - i,
    {
        let nm = norm(lump_name(&pbytes[4 + i * 8..plen]));
        pnames.push(nm);
        i += 1;
    }
    let mut patches = TextureTable::new();
    let mut i: usize = 0;
    while i < pnames.len()
        invariant
            w.well_formed(),
            textures_input_ok(w),
            w.lump_named(pnames_lump_name()) == Some(d),
            pnames@.len() == pname_count(d),
            forall|j: int| 0 <= j < pnames@.len() ==> (#[trigger] pnames@[j])@ == pname_at(d, j),
            i <= pnames@.len(),
            patches.wf(),
            patch_table_ok(w, d, pal@, patches.view(), i as int),
        decreases pnames@.len() - i,
    {
        let ghost key = pname_at(d, i as int);
        assert(pnames@[i as int]@ == key);
        let ghost v0 = patches.view();
        match w.find_lump(pnames[i].as_str()) {
            Some(li) => {
                proof {
                    let c = choose|q: int| w.last_named(key, q);
                    w.lemma_last_named_unique(key, c, li as int);
                }
                let raw = w.lump_bytes(li).unwrap();
                assert(w.lump_named(key) == Some(raw@));
                assert(patch_ok(raw@));
                let t = decode_patch(raw, pal);
                patches.insert(pnames[i].clone(), t);
                proof {
                    assert forall|k: Seq<char>|
                        #[trigger] patches.view().contains_key(k) <==> ((exists|j: int| 0 <= j < i + 1 && pname_at(d, j) == k)
                            && w.lump_named(k) is Some) by {
                        if (exists|j: int| 0 <= j < i + 1 && pname_at(d, j) == k) && w.lump_named(k) is Some {
                            let j = choose|j: int| 0 <= j < i + 1 && pname_at(d, j) == k;
                            if j < i {
                                assert(v0.contains_key(k));
                            }
                        }
                        if v0.contains_key(k) {
                            let j = choose|j: int| 0 <= j < i && pname_at(d, j) == k;
                            assert(0 <= j < i + 1 && pname_at(d, j) == k);
                        }
                    }
                }
            },
            None => {
                proof {
                    if exists|q: int| w.last_named(key, q) {
                        let c = choose|q: int| w.last_named(key, q);
                        assert(crate::wad::lump_name_view(w.lumps@[c].name@) == key);
                    }
                    assert(w.lump_named(key) is None);
                    assert forall|k: Seq<char>|
                        #[trigger] patches.view().contains_key(k) <==> ((exists|j: int| 0 <= j < i + 1 && pname_at(d, j) == k)
                            && w.lump_named(k) is Some) by {
                        if (exists|j: int| 0 <= j < i + 1 && pname_at(d, j) == k) && w.lump_named(k) is Some {
                            let j = choose|j: int| 0 <= j < i + 1 && pname_at(d, j) == k;
                            assert(j != i);
                        }
                        if v0.contains_key(k) {
                            let j = choose|j: int| 0 <= j < i && pname_at(d, j) == k;
                            assert(0 <= j < i + 1 && pname_at(d, j) == k);
                        }
                    }
                }
            },
        }
        i += 1;
    }
    let mut tbl = TextureTable::new();
    let t1 = "TEXTURE1";
    proof {
        reveal_strlit("TEXTURE1");
        assert(t1@ =~= crate::loader::texture1_name());
    }
    add_table(&mut tbl, w, t1, &pnames, &patches, pal, Ghost(d));
    let ghost m1 = tbl.view();
    let t2 = "TEXTURE2";
    proof {
        reveal_strlit("TEXTURE2");
        assert(t2@ =~= crate::loader::texture2_name());
    }
    add_table(&mut tbl, w, t2, &pnames, &patches, pal, Ghost(d));
    let ghost m2 = tbl.view();
    let ck = "CHECKER";
    proof {
        reveal_strlit("CHECKER");
        assert(ck@ =~= checker_key());
    }
    tbl.insert(ck.to_owned(), checker());
    proof {
        assert forall|k: Seq<char>| #[trigger] tbl.view().contains_key(k) <==> (k == checker_key() || final_entry(w, k) is Some) by {
            if m2.contains_key(k) {
            }
        }
        assert forall|k: Seq<char>| k != checker_key() && (#[trigger] final_entry(w, k)) is Some implies rgb_composes(
            tbl.view()[k],
            w,
            w.lump_named(pnames_lump_name())->Some_0,
            pal@,
            final_entry(w, k)->Some_0,
        ) by {
            assert(tbl.view()[k] == m2[k]);
            let b = table_keyed(w.lump_named(crate::loader::texture2_name()), k);
            if b is None {
                assert(m1.contains_key(k));
                assert(m2[k] == m1[k]);
            }
        }
    }
    tbl
}

/*──────────────────────────── flats ────────────────────────────────*/

/// `F_START` or `FF_START`.
pub open spec fn is_flat_start(n: Seq<char>) -> bool {
    n == seq!['F', '_', 'S', 'T', 'A', 'R', 'T'] || n == seq!['F', 'F', '_', 'S', 'T', 'A', 'R', 'T']
}

/// `F_END` or `FF_END`.
pub open spec fn is_flat_end(n: Seq<char>) -> bool {
    n == seq!['F', '_', 'E', 'N', 'D'] || n == seq!['F', 'F', '_', 'E', 'N', 'D']
}

/// Text of the name of lump `i`.
pub open spec fn lump_text(w: &Wad, i: int) -> Seq<char> {
    crate::wad::lump_name_view(w.lumps@[i].name@)
}

/// After the first `i` lumps the scan is between a flat start marker and
/// the next end marker.
pub open spec fn in_flats(w: &Wad, i: int) -> bool
    decreases i,
{
    if i <= 0 {
        false
    } else if is_flat_start(lump_text(w, i - 1)) {
        true
    } else if is_flat_end(lump_text(w, i - 1)) {
        false
    } else {
        in_flats(w, i - 1)
    }
}

/// Lump `i` is a flat: no marker itself, inside the flat markers, and
/// exactly 4096 bytes long.
pub open spec fn flat_lump(w: &Wad, i: int) -> bool {
    &&& !is_flat_start(lump_text(w, i))
    &&& !is_flat_end(lump_text(w, i))
    &&& in_flats(w, i)
    &&& w.lumps@[i].size == 4096
}

/// Lump `i` is the last flat named `k` among the first `n` lumps.
pub open spec fn last_flat(w: &Wad, k: Seq<char>, n: int, i: int) -> bool {
    &&& 0 <= i < n
    &&& flat_lump(w, i)
    &&& lump_text(w, i) == k
    &&& forall|j: int| i < j < n ==> !(#[trigger] flat_lump(w, j) && lump_text(w, j) == k)
}

/// `t` is the 64×64 flat `data` expanded through `pal`.
pub open spec fn is_flat_of(t: Texture, data: Seq<u8>, pal: Seq<u32>) -> bool {
    &&& t.w == 64
    &&& t.h == 64
    &&& t.pix@.len() == 4096
    &&& forall|j: int| 0 <= j < 4096 ==> #[trigger] t.pix@[j] == pal[data[j] as int]
}

/// The flats table of the first `n` lumps, before the checkerboard.
pub open spec fn flats_so_far(w: &Wad, pal: Seq<u32>, m: Map<Seq<char>, Texture>, n: int) -> bool {
    &&& forall|k: Seq<char>| #[trigger] m.contains_key(k) <==> exists|i: int| last_flat(w, k, n, i)
    &&& forall|k: Seq<char>, i: int|
        #[trigger] last_flat(w, k, n, i) ==> is_flat_of(m[k], lump_data(w.bytes@, w.lumps@[i]), pal)
}

/// `v` is the flat table of `w`: the checkerboard under `CHECKER`, and
/// under the name of each last flat of a name that flat expanded through
/// `pal`.
pub open spec fn flats_built(w: &Wad, pal: Seq<u32>, v: Map<Seq<char>, Texture>) -> bool {
    &&& forall|k: Seq<char>|
        #[trigger] v.contains_key(k) <==> (k == checker_key() || exists|i: int| last_flat(w, k, w.lumps@.len() as int, i))
    &&& is_rgb_checker(v[checker_key()])
    &&& forall|k: Seq<char>, i: int|
        k != checker_key() && #[trigger] last_flat(w, k, w.lumps@.len() as int, i) ==> is_flat_of(
            v[k],
            lump_data(w.bytes@, w.lumps@[i]),
            pal,
        )
}

/// A flat is its lump's 64×64 bytes, row after row, each byte replaced by
/// its palette colour: the pixel at column `x`, row `y` is the colour of
/// byte `64 * y + x` of the lump.
pub proof fn law_flat_pixels(w: &Wad, pal: Seq<u32>, v: Map<Seq<char>, Texture>, k: Seq<char>, i: int)
    requires
        w.well_formed(),
        flats_built(w, pal, v),
        k != checker_key(),
        last_flat(w, k, w.lumps@.len() as int, i),
    ensures
        v.contains_key(k),
        v[k].w == 64,
        v[k].h == 64,
        forall|x: int, y: int|
            0 <= x < 64 && 0 <= y < 64 ==> #[trigger] v[k].pix@[y * 64 + x] == pal[
                w.bytes@[w.lumps@[i].offset as int + y * 64 + x] as int
            ],
{
    let l = w.lumps@[i];
    let data = lump_data(w.bytes@, l);
    assert(v.contains_key(k));
    assert(is_flat_of(v[k], data, pal));
    assert(lump_in_bounds(l, w.bytes@.len() as int));
    assert forall|x: int, y: int| 0 <= x < 64 && 0 <= y < 64 implies #[trigger] v[k].pix@[y * 64 + x] == pal[
        w.bytes@[l.offset as int + y * 64 + x] as int
    ] by {
        assert(0 <= y * 64 + x < 4096) by (nonlinear_arith)
            requires
                0 <= x < 64,
                0 <= y < 64,
        ;
        assert(data[y * 64 + x] == w.bytes@[l.offset as int + y * 64 + x]);
    }
}

/// Build the flat table: every 4096-byte lump between `F_START`/`FF_START`
/// and `F_END`/`FF_END`, expanded through `pal` and keyed by its name (a
/// later lump of a name replacing an earlier one), plus the checkerboard
/// under `CHECKER`.
pub fn build_flats(w: &Wad, pal: &[u32; 256]) -> (r: TextureTable)
    requires
        w.well_formed(),
    ensures
        r.wf(),
        flats_built(w, pal@, r.view()),
{
    let fs = "F_START";
    let ffs = "FF_START";
    let fe = "F_END";
    let ffe = "FF_END";
    proof {
        reveal_strlit("F_START");
        reveal_strlit("FF_START");
        reveal_strlit("F_END");
        reveal_strlit("FF_END");
        assert(fs@ =~= seq!['F', '_', 'S', 'T', 'A', 'R', 'T']);
        assert(ffs@ =~= seq!['F', 'F', '_', 'S', 'T', 'A', 'R', 'T']);
        assert(fe@ =~= seq!['F', '_', 'E', 'N', 'D']);
        assert(ffe@ =~= seq!['F', 'F', '_', 'E', 'N', 'D']);
    }
    let mut tbl = TextureTable::new();
    let mut in_flats_now = false;
    let mut i: usize = 0;
    while i < w.lumps.len()
        invariant
            w.well_formed(),
            fs@ == seq!['F', '_', 'S', 'T', 'A', 'R', 'T'],
            ffs@ == seq!['F', 'F', '_', 'S', 'T', 'A', 'R', 'T'],
            fe@ == seq!['F', '_', 'E', 'N', 'D'],
            ffe@ == seq!['F', 'F', '_', 'E', 'N', 'D'],
            i <= w.lumps@.len(),
            in_flats_now == in_flats(w, i as int),
            tbl.wf(),
            flats_so_far(w, pal@, tbl.view(), i as int),
        decreases w.lumps@.len() - i,
    {
        let name = Wad::lump_name_str(&w.lumps[i].name);
        assert(name@ == lump_text(w, i as int));
        let ghost m0 = tbl.view();
        if crate::text::str_eq(name, fs) || crate::text::str_eq(name, ffs) {
            in_flats_now = true;
        } else if crate::text::str_eq(name, fe) || crate::text::str_eq(name, ffe) {
            in_flats_now = false;
        } else if in_flats_now {
            let lump = w.lump_bytes(i).unwrap();
            if lump.len() == 4096 {
                let mut pix: Vec<u32> = vec![0u32; 64 * 64];
                let mut j: usize = 0;
                while j < 4096
                    invariant
                        lump@.len() == 4096,
                        pix@.len() == 4096,
                        j <= 4096,
                        forall|q: int| 0 <= q < j ==> #[trigger] pix@[q] == pal@[lump@[q] as int],
                    decreases 4096 - j,
                {
                    pix.set(j, pal[lump[j] as usize]);
                    j += 1;
                }
                let t = Texture { w: 64, h: 64, pix };
                assert(is_flat_of(t, lump_data(w.bytes@, w.lumps@[i as int]), pal@));
                tbl.insert(name.to_owned(), t);
            }
        }
        proof {
            let n1 = i + 1;
            assert forall|k: Seq<char>| #[trigger] tbl.view().contains_key(k) <==> exists|q: int| last_flat(w, k, n1, q) by {
                if tbl.view().contains_key(k) {
                    if flat_lump(w, i as int) && lump_text(w, i as int) == k {
                        assert(last_flat(w, k, n1, i as int));
                    } else {
                        let q = choose|q: int| last_flat(w, k, i as int, q);
                        assert(last_flat(w, k, n1, q));
                    }
                }
                if exists|q: int| last_flat(w, k, n1, q) {
                    let q = choose|q: int| last_flat(w, k, n1, q);
                    if q < i {
                        assert(last_flat(w, k, i as int, q));
                    }
                }
            }
            assert forall|k: Seq<char>, q: int| #[trigger] last_flat(w, k, n1, q) implies is_flat_of(
                tbl.view()[k],
                lump_data(w.bytes@, w.lumps@[q]),
                pal@,
            ) by {
                if q < i {
                    assert(last_flat(w, k, i as int, q));
                    if flat_lump(w, i as int) {
                        assert(lump_text(w, i as int) != k);
                    }
                } else {
                    assert(flat_lump(w, i as int));
                }
            }
        }
        i += 1;
    }
    let ghost m = tbl.view();
    let ck = "CHECKER";
    proof {
        reveal_strlit("CHECKER");
        assert(ck@ =~= checker_key());
    }
    tbl.insert(ck.to_owned(), checker());
    proof {
        assert forall|k: Seq<char>, q: int|
            k != checker_key() && #[trigger] last_flat(w, k, w.lumps@.len() as int, q) implies is_flat_of(
            tbl.view()[k],
            lump_data(w.bytes@, w.lumps@[q]),
            pal@,
        ) by {
            assert(tbl.view()[k] == m[k]);
        }
    }
    tbl
}

} // verus!
