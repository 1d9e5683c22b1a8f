//! The eight fixed-layout lumps that make up a classic Doom map.

use vstd::prelude::*;
use crate::le::{i16_le, u16_le, read_i16_at, read_u16_at, read_bytes8_at};
use crate::text::{str_eq, regex_is_match, is_map_marker, marker_pattern};
use crate::wad::{Wad, WadError, RawRecord, LumpInfo, lump_name_view};

verus! {

/*=======================================================================*/
/*                         Raw binary structs                            */
/*=======================================================================*/

#[derive(Clone, Copy, Debug)]
pub struct RawThing {
    pub x: i16,
    pub y: i16,
    pub angle: i16,
    pub type_: i16,
    pub options: i16,
}

#[derive(Clone, Copy, Debug)]
pub struct RawLinedef {
    pub v1: i16,
    pub v2: i16,
    pub flags: i16,
    pub special: i16,
    pub tag: i16,
    pub sidenum: [i16; 2],
}

#[derive(Clone, Copy, Debug)]
pub struct RawSidedef {
    pub x_off: i16,
    pub y_off: i16,
    pub top_tex: [u8; 8],
    pub bottom_tex: [u8; 8],
    pub mid_tex: [u8; 8],
    pub sector: i16,
}

#[derive(Clone, Copy, Debug)]
pub struct RawVertex {
    pub x: i16,
    pub y: i16,
}

#[derive(Clone, Copy, Debug)]
pub struct RawSeg {
    pub v1: i16,
    pub v2: i16,
    pub angle: i16,
    pub linedef: i16,
    pub side: i16,
    pub offset: i16,
}

#[derive(Clone, Copy, Debug)]
pub struct RawSubsector {
    pub seg_count: i16,
    pub first_seg: i16,
}

#[derive(Clone, Copy, Debug)]
pub struct RawNode {
    pub x: i16,
    pub y: i16,
    pub dx: i16,
    pub dy: i16,
    pub bbox: [[i16; 4]; 2],
    pub child: [u16; 2],
}

#[derive(Clone, Copy, Debug)]
pub struct RawSector {
    pub floor_h: i16,
    pub ceil_h: i16,
    pub floor_tex: [u8; 8],
    pub ceil_tex: [u8; 8],
    pub light: i16,
    pub special: i16,
    pub tag: i16,
}

/*──────────────────────────── record layout ──────────────────────────*/

/// The `n` little-endian 16-bit words stored from byte `at` on, as
/// unsigned values: word `k` is `b[at + 2k] + 256 * b[at + 2k + 1]`.
pub open spec fn le_words(b: Seq<u8>, at: int, n: nat) -> Seq<int> {
    Seq::new(n, |k: int| b[at + 2 * k] as int + 256 * b[at + 2 * k + 1] as int)
}

/// The 16 bits of `v`, as an unsigned value.
pub open spec fn bits(v: i16) -> int {
    (v as u16) as int
}

proof fn lemma_i16_bits(b: Seq<u8>, at: int)
    requires
        0 <= at,
        at + 1 < b.len(),
    ensures
        bits(i16_le(b, at)) == b[at] as int + 256 * b[at + 1] as int,
{
    let u = u16_le(b, at);
    assert(0 <= u < 65536);
    let w = u as u16;
    assert(w as int == u);
    assert(((w as i16) as u16) == w) by (bit_vector);
}

/// The 16 bits of each of `vals`, as unsigned values.
pub open spec fn bits_of(vals: Seq<i16>) -> Seq<int> {
    vals.map_values(|v: i16| bits(v))
}

/// Each word in `words` is the `i16` read at its two bytes from `at` on.
proof fn lemma_words(b: Seq<u8>, at: int, vals: Seq<i16>)
    requires
        0 <= at,
        at + 2 * vals.len() <= b.len(),
        forall|k: int| 0 <= k < vals.len() ==> #[trigger] vals[k] == i16_le(b, at + 2 * k),
    ensures
        bits_of(vals) == le_words(b, at, vals.len()),
{
    assert forall|k: int| 0 <= k < vals.len() implies #[trigger] bits_of(vals)[k] == le_words(
        b,
        at,
        vals.len(),
    )[k] by {
        lemma_i16_bits(b, at + 2 * k);
    }
    assert(bits_of(vals) =~= le_words(b, at, vals.len()));
}

impl RawRecord for RawThing {
    open spec fn spec_size() -> nat {
        10
    }

    open spec fn decoded_from(&self, b: Seq<u8>) -> bool {
        &&& self.x == i16_le(b, 0)
        &&& self.y == i16_le(b, 2)
        &&& self.angle == i16_le(b, 4)
        &&& self.type_ == i16_le(b, 6)
        &&& self.options == i16_le(b, 8)
    }

    fn record_size() -> (n: usize) {
        10
    }

    fn decode(b: &[u8]) -> (r: Self) {
        RawThing {
            x: read_i16_at(b, 0),
            y: read_i16_at(b, 2),
            angle: read_i16_at(b, 4),
            type_: read_i16_at(b, 6),
            options: read_i16_at(b, 8),
        }
    }
}

impl RawRecord for RawLinedef {
    open spec fn spec_size() -> nat {
        14
    }

    open spec fn decoded_from(&self, b: Seq<u8>) -> bool {
        &&& self.v1 == i16_le(b, 0)
        &&& self.v2 == i16_le(b, 2)
        &&& self.flags == i16_le(b, 4)
        &&& self.special == i16_le(b, 6)
        &&& self.tag == i16_le(b, 8)
        &&& self.sidenum@ == seq![i16_le(b, 10), i16_le(b, 12)]
    }

    fn record_size() -> (n: usize) {
        14
    }

    fn decode(b: &[u8]) -> (r: Self) {
        let s0 = read_i16_at(b, 10);
        let s1 = read_i16_at(b, 12);
        let sidenum = [s0, s1];
        assert(sidenum@ =~= seq![i16_le(b@, 10), i16_le(b@, 12)]);
        RawLinedef {
            v1: read_i16_at(b, 0),
            v2: read_i16_at(b, 2),
            flags: read_i16_at(b, 4),
            special: read_i16_at(b, 6),
            tag: read_i16_at(b, 8),
            sidenum,
        }
    }
}

impl RawRecord for RawSidedef {
    open spec fn spec_size() -> nat {
        30
    }

    open spec fn decoded_from(&self, b: Seq<u8>) -> bool {
        &&& self.x_off == i16_le(b, 0)
        &&& self.y_off == i16_le(b, 2)
        &&& self.top_tex@ == b.subrange(4, 12)
        &&& self.bottom_tex@ == b.subrange(12, 20)
        &&& self.mid_tex@ == b.subrange(20, 28)
        &&& self.sector == i16_le(b, 28)
    }

    fn record_size() -> (n: usize) {
        30
    }

    fn decode(b: &[u8]) -> (r: Self) {
        RawSidedef {
            x_off: read_i16_at(b, 0),
            y_off: read_i16_at(b, 2),
            top_tex: read_bytes8_at(b, 4),
            bottom_tex: read_bytes8_at(b, 12),
            mid_tex: read_bytes8_at(b, 20),
            sector: read_i16_at(b, 28),
        }
    }
}

impl RawRecord for RawVertex {
    open spec fn spec_size() -> nat {
        4
    }

    open spec fn decoded_from(&self, b: Seq<u8>) -> bool {
        &&& self.x == i16_le(b, 0)
        &&& self.y == i16_le(b, 2)
    }

    fn record_size() -> (n: usize) {
        4
    }

    fn decode(b: &[u8]) -> (r: Self) {
        RawVertex { x: read_i16_at(b, 0), y: read_i16_at(b, 2) }
    }
}

impl RawRecord for RawSeg {
    open spec fn spec_size() -> nat {
        12
    }

    open spec fn decoded_from(&self, b: Seq<u8>) -> bool {
        &&& self.v1 == i16_le(b, 0)
        &&& self.v2 == i16_le(b, 2)
        &&& self.angle == i16_le(b, 4)
        &&& self.linedef == i16_le(b, 6)
        &&& self.side == i16_le(b, 8)
        &&& self.offset == i16_le(b, 10)
    }

    fn record_size() -> (n: usize) {
        12
    }

    fn decode(b: &[u8]) -> (r: Self) {
        RawSeg {
            v1: read_i16_at(b, 0),
            v2: read_i16_at(b, 2),
            angle: read_i16_at(b, 4),
            linedef: read_i16_at(b, 6),
            side: read_i16_at(b, 8),
            offset: read_i16_at(b, 10),
        }
    }
}

impl RawRecord for RawSubsector {
    open spec fn spec_size() -> nat {
        4
    }

    open spec fn decoded_from(&self, b: Seq<u8>) -> bool {
        &&& self.seg_count == i16_le(b, 0)
        &&& self.first_seg == i16_le(b, 2)
    }

    fn record_size() -> (n: usize) {
        4
    }

    fn decode(b: &[u8]) -> (r: Self) {
        RawSubsector { seg_count: read_i16_at(b, 0), first_seg: read_i16_at(b, 2) }
    }
}

/// The four `i16` values of a bounding box stored at `at`.
pub open spec fn bbox_at(b: Seq<u8>, at: int) -> Seq<i16> {
    seq![i16_le(b, at), i16_le(b, at + 2), i16_le(b, at + 4), i16_le(b, at + 6)]
}

fn read_bbox_at(b: &[u8], at: usize) -> (r: [i16; 4])
    requires
        at + 8 <= b@.len(),
    ensures
        r@ == bbox_at(b@, at as int),
{
    let n = b.len();
    let r = [read_i16_at(b, at), read_i16_at(b, at + 2), read_i16_at(b, at + 4), read_i16_at(b, at + 6)];
    assert(r@ =~= bbox_at(b@, at as int));
    r
}

impl RawRecord for RawNode {
    open spec fn spec_size() -> nat {
        28
    }

    open spec fn decoded_from(&self, b: Seq<u8>) -> bool {
        &&& self.x == i16_le(b, 0)
        &&& self.y == i16_le(b, 2)
        &&& self.dx == i16_le(b, 4)
        &&& self.dy == i16_le(b, 6)
        &&& self.bbox[0]@ == bbox_at(b, 8)
        &&& self.bbox[1]@ == bbox_at(b, 16)
        &&& self.child[0] as int == u16_le(b, 24)
        &&& self.child[1] as int == u16_le(b, 26)
    }

    fn record_size() -> (n: usize) {
        28
    }

    fn decode(b: &[u8]) -> (r: Self) {
        let b0 = read_bbox_at(b, 8);
        let b1 = read_bbox_at(b, 16);
        let c0 = read_u16_at(b, 24);
        let c1 = read_u16_at(b, 26);
        let bbox = [b0, b1];
        let child = [c0, c1];
        RawNode {
            x: read_i16_at(b, 0),
            y: read_i16_at(b, 2),
            dx: read_i16_at(b, 4),
            dy: read_i16_at(b, 6),
            bbox,
            child,
        }
    }
}

impl RawRecord for RawSector {
    open spec fn spec_size() -> nat {
        26
    }

    open spec fn decoded_from(&self, b: Seq<u8>) -> bool {
        &&& self.floor_h == i16_le(b, 0)
        &&& self.ceil_h == i16_le(b, 2)
        &&& self.floor_tex@ == b.subrange(4, 12)
        &&& self.ceil_tex@ == b.subrange(12, 20)
        &&& self.light == i16_le(b, 20)
        &&& self.special == i16_le(b, 22)
        &&& self.tag == i16_le(b, 24)
    }

    fn record_size() -> (n: usize) {
        26
    }

    fn decode(b: &[u8]) -> (r: Self) {
        RawSector {
            floor_h: read_i16_at(b, 0),
            ceil_h: read_i16_at(b, 2),
            floor_tex: read_bytes8_at(b, 4),
            ceil_tex: read_bytes8_at(b, 12),
            light: read_i16_at(b, 20),
            special: read_i16_at(b, 22),
            tag: read_i16_at(b, 24),
        }
    }
}

/// A decoded thing holds its 10 bytes as the little-endian words of its
/// fields in declaration order: x, y, angle, type, options.
pub proof fn law_thing_layout(r: RawThing, b: Seq<u8>)
    requires
        b.len() == 10,
        r.decoded_from(b),
    ensures
        bits_of(seq![r.x, r.y, r.angle, r.type_, r.options]) == le_words(b, 0, 5),
{
    lemma_words(b, 0, seq![r.x, r.y, r.angle, r.type_, r.options]);
}

/// A decoded linedef holds its 14 bytes as the little-endian words of its
/// fields in declaration order: v1, v2, flags, special, tag, then the
/// right and the left side numbers.
pub proof fn law_linedef_layout(r: RawLinedef, b: Seq<u8>)
    requires
        b.len() == 14,
        r.decoded_from(b),
    ensures
        bits_of(seq![r.v1, r.v2, r.flags, r.special, r.tag, r.sidenum[0], r.sidenum[1]]) == le_words(b, 0, 7),
{
    lemma_words(b, 0, seq![r.v1, r.v2, r.flags, r.special, r.tag, r.sidenum[0], r.sidenum[1]]);
}

/// A decoded sidedef holds its 30 bytes in declaration order: the x and
/// y offsets as little-endian words, the upper, lower and middle texture
/// names as eight bytes each, then the sector as a word.
pub proof fn law_sidedef_layout(r: RawSidedef, b: Seq<u8>)
    requires
        b.len() == 30,
        r.decoded_from(b),
    ensures
        bits_of(seq![r.x_off, r.y_off]) == le_words(b, 0, 2),
        forall|j: int| 0 <= j < 8 ==> #[trigger] r.top_tex[j] == b[4 + j],
        forall|j: int| 0 <= j < 8 ==> #[trigger] r.bottom_tex[j] == b[12 + j],
        forall|j: int| 0 <= j < 8 ==> #[trigger] r.mid_tex[j] == b[20 + j],
        bits_of(seq![r.sector]) == le_words(b, 28, 1),
{
    lemma_words(b, 0, seq![r.x_off, r.y_off]);
    lemma_words(b, 28, seq![r.sector]);
}

/// A decoded vertex holds its 4 bytes as the little-endian words x, y.
pub proof fn law_vertex_layout(r: RawVertex, b: Seq<u8>)
    requires
        b.len() == 4,
        r.decoded_from(b),
    ensures
        bits_of(seq![r.x, r.y]) == le_words(b, 0, 2),
{
    lemma_words(b, 0, seq![r.x, r.y]);
}

/// A decoded seg holds its 12 bytes as the little-endian words of its
/// fields in declaration order: v1, v2, angle, linedef, side, offset.
pub proof fn law_seg_layout(r: RawSeg, b: Seq<u8>)
    requires
        b.len() == 12,
        r.decoded_from(b),
    ensures
        bits_of(seq![r.v1, r.v2, r.angle, r.linedef, r.side, r.offset]) == le_words(b, 0, 6),
{
    lemma_words(b, 0, seq![r.v1, r.v2, r.angle, r.linedef, r.side, r.offset]);
}

/// A decoded subsector holds its 4 bytes as the little-endian words
/// seg count, first seg.
pub proof fn law_subsector_layout(r: RawSubsector, b: Seq<u8>)
    requires
        b.len() == 4,
        r.decoded_from(b),
    ensures
        bits_of(seq![r.seg_count, r.first_seg]) == le_words(b, 0, 2),
{
    lemma_words(b, 0, seq![r.seg_count, r.first_seg]);
}

/// A decoded node holds its 28 bytes as 14 little-endian words in
/// declaration order: x, y, dx, dy, the right then the left bounding box
/// (four words each), then the right and the left child.
pub proof fn law_node_layout(r: RawNode, b: Seq<u8>)
    requires
        b.len() == 28,
        r.decoded_from(b),
    ensures
        bits_of(seq![r.x, r.y, r.dx, r.dy]) + bits_of(r.bbox[0]@)
            + bits_of(r.bbox[1]@) + seq![r.child[0] as int, r.child[1] as int] == le_words(
            b,
            0,
            14,
        ),
{
    lemma_words(b, 0, seq![r.x, r.y, r.dx, r.dy]);
    lemma_words(b, 8, r.bbox[0]@);
    lemma_words(b, 16, r.bbox[1]@);
    let lhs = bits_of(seq![r.x, r.y, r.dx, r.dy]) + bits_of(r.bbox[0]@)
        + bits_of(r.bbox[1]@) + seq![r.child[0] as int, r.child[1] as int];
    let rhs = le_words(b, 0, 14);
    assert forall|k: int| 0 <= k < 14 implies #[trigger] lhs[k] == rhs[k] by {
        if k < 4 {
            assert(lhs[k] == le_words(b, 0, 4)[k]);
        } else if k < 8 {
            assert(lhs[k] == le_words(b, 8, 4)[k - 4]);
        } else if k < 12 {
            assert(lhs[k] == le_words(b, 16, 4)[k - 8]);
        }
    }
    assert(lhs =~= rhs);
}

/// A decoded sector holds its 26 bytes in declaration order: the floor
/// and ceiling heights as little-endian words, the floor and ceiling
/// flat names as eight bytes each, then light, special and tag as words.
pub proof fn law_sector_layout(r: RawSector, b: Seq<u8>)
    requires
        b.len() == 26,
        r.decoded_from(b),
    ensures
        bits_of(seq![r.floor_h, r.ceil_h]) == le_words(b, 0, 2),
        forall|j: int| 0 <= j < 8 ==> #[trigger] r.floor_tex[j] == b[4 + j],
        forall|j: int| 0 <= j < 8 ==> #[trigger] r.ceil_tex[j] == b[12 + j],
        bits_of(seq![r.light, r.special, r.tag]) == le_words(b, 20, 3),
{
    lemma_words(b, 0, seq![r.floor_h, r.ceil_h]);
    lemma_words(b, 20, seq![r.light, r.special, r.tag]);
}

/*=======================================================================*/
/*                     Aggregate returned by `parse_level`               */
/*=======================================================================*/

#[derive(Debug)]
pub struct RawLevel {
    pub name: String,
    pub things: Vec<RawThing>,
    pub linedefs: Vec<RawLinedef>,
    pub sidedefs: Vec<RawSidedef>,
    pub vertices: Vec<RawVertex>,
    pub segs: Vec<RawSeg>,
    pub subsectors: Vec<RawSubsector>,
    pub nodes: Vec<RawNode>,
    pub sectors: Vec<RawSector>,
}

#[derive(Debug)]
pub enum LevelError {
    /// The marker index is not a lump index.
    MarkerOob(usize),
    /// The named lump is not where a map needs it after the marker.
    Missing(&'static str),
    /// Decoding one of the map lumps failed.
    Wad(WadError),
}

/// Name of the `k`-th lump after a map marker (`k` in `1..=8`).
pub open spec fn level_lump_name(k: int) -> Seq<char> {
    if k == 1 {
        seq!['T', 'H', 'I', 'N', 'G', 'S']
    } else if k == 2 {
        seq!['L', 'I', 'N', 'E', 'D', 'E', 'F', 'S']
    } else if k == 3 {
        seq!['S', 'I', 'D', 'E', 'D', 'E', 'F', 'S']
    } else if k == 4 {
        seq!['V', 'E', 'R', 'T', 'E', 'X', 'E', 'S']
    } else if k == 5 {
        seq!['S', 'E', 'G', 'S']
    } else if k == 6 {
        seq!['S', 'S', 'E', 'C', 'T', 'O', 'R', 'S']
    } else if k == 7 {
        seq!['N', 'O', 'D', 'E', 'S']
    } else {
        seq!['S', 'E', 'C', 'T', 'O', 'R', 'S']
    }
}

/// Record size of the `k`-th lump after a map marker (`k` in `1..=8`).
pub open spec fn level_record_size(k: int) -> nat {
    if k == 1 {
        10
    } else if k == 2 {
        14
    } else if k == 3 {
        30
    } else if k == 4 {
        4
    } else if k == 5 {
        12
    } else if k == 6 {
        4
    } else if k == 7 {
        28
    } else {
        26
    }
}

/// A map marker is an empty lump whose name the marker pattern matches.
pub open spec fn is_marker_lump(l: LumpInfo) -> bool {
    l.size == 0 && is_map_marker(lump_name_view(l.name@))
}

/// Indices below `n` of the map markers in `lumps`, in increasing order.
pub open spec fn marker_indices(lumps: Seq<LumpInfo>, n: int) -> Seq<usize>
    decreases n,
{
    if n <= 0 {
        seq![]
    } else if is_marker_lump(lumps[n - 1]) {
        marker_indices(lumps, n - 1).push((n - 1) as usize)
    } else {
        marker_indices(lumps, n - 1)
    }
}

impl Wad {
    /// The lump `k` places after `marker` exists and bears the `k`-th map lump name.
    pub open spec fn level_name_ok(&self, marker: int, k: int) -> bool {
        &&& marker + k < self.lumps@.len()
        &&& lump_name_view(self.lumps@[marker + k].name@) == level_lump_name(k)
    }

    /// All eight map lumps follow `marker` in order.
    pub open spec fn level_names_ok(&self, marker: int) -> bool {
        forall|k: int| 1 <= k <= 8 ==> #[trigger] self.level_name_ok(marker, k)
    }

    /// The `k`-th map lump after `marker` decodes into records.
    pub open spec fn level_lump_ok(&self, marker: int, k: int) -> bool {
        self.records_ok(marker + k, level_record_size(k))
    }

    /// All eight map lumps after `marker` decode into records.
    pub open spec fn level_lumps_ok(&self, marker: int) -> bool {
        forall|k: int| 1 <= k <= 8 ==> #[trigger] self.level_lump_ok(marker, k)
    }

    /// What `parse_level(marker)` gives back: `r` is its result exactly when this holds.
    pub open spec fn parse_level_result(&self, marker: usize, r: Result<RawLevel, LevelError>) -> bool {
        let m = marker as int;
        match r {
            Ok(lvl) => {
                &&& m < self.lumps@.len()
                &&& self.level_names_ok(m)
                &&& self.level_lumps_ok(m)
                &&& lvl.name@ == lump_name_view(self.lumps@[m].name@)
                &&& self.records_match(m + 1, lvl.things@)
                &&& self.records_match(m + 2, lvl.linedefs@)
                &&& self.records_match(m + 3, lvl.sidedefs@)
                &&& self.records_match(m + 4, lvl.vertices@)
                &&& self.records_match(m + 5, lvl.segs@)
                &&& self.records_match(m + 6, lvl.subsectors@)
                &&& self.records_match(m + 7, lvl.nodes@)
                &&& self.records_match(m + 8, lvl.sectors@)
            },
            Err(LevelError::MarkerOob(i)) => m >= self.lumps@.len() && i == marker,
            Err(LevelError::Missing(n)) => {
                &&& m < self.lumps@.len()
                &&& exists|k: int|
                    1 <= k <= 8 && !#[trigger] self.level_name_ok(m, k) && (forall|j: int|
                        1 <= j < k ==> #[trigger] self.level_name_ok(m, j)) && n@ == level_lump_name(k)
            },
            Err(LevelError::Wad(e)) => {
                &&& m < self.lumps@.len()
                &&& self.level_names_ok(m)
                &&& exists|k: int|
                    1 <= k <= 8 && !#[trigger] self.level_lump_ok(m, k) && (forall|j: int|
                        1 <= j < k ==> #[trigger] self.level_lump_ok(m, j)) && self.records_error(
                        (m + k) as usize,
                        level_record_size(k),
                        e,
                    )
            },
        }
    }

    /// Directory indices of every map marker (`E#M#`, `MAP##`): the empty
    /// lumps whose names the marker pattern matches, in directory order.
    pub fn level_indices(&self) -> (r: Vec<usize>)
        ensures
            r@ == marker_indices(self.lumps@, self.lumps@.len() as int),
    {
        let pattern = "^(E[1-4]M[1-9]|MAP[0-3][0-9])$";
        proof {
            reveal_strlit("^(E[1-4]M[1-9]|MAP[0-3][0-9])$");
            assert(pattern@ =~= marker_pattern());
        }
        let mut out: Vec<usize> = Vec::new();
        let mut i: usize = 0;
        while i < self.lumps.len()
            invariant
                pattern@ == marker_pattern(),
                i <= self.lumps@.len(),
                out@ == marker_indices(self.lumps@, i as int),
            decreases self.lumps@.len() - i,
        {
            let l = &self.lumps[i];
            let hit = if l.size == 0 {
                match regex_is_match(pattern, Self::lump_name_str(&l.name)) {
                    Some(m) => m,
                    None => false,
                }
            } else {
                false
            };
            assert(hit == is_marker_lump(self.lumps@[i as int]));
            if hit {
                out.push(i);
            }
            i += 1;
        }
        out
    }

    /// Decode the eight mandatory lumps that make up a classic Doom map.
    ///
    /// The lumps must follow the marker in the fixed order THINGS, LINEDEFS,
    /// SIDEDEFS, VERTEXES, SEGS, SSECTORS, NODES, SECTORS; the first missing
    /// one is reported, then the first that does not decode.
    pub fn parse_level(&self, marker_idx: usize) -> (r: Result<RawLevel, LevelError>)
        ensures
            self.parse_level_result(marker_idx, r),
    {
        if marker_idx >= self.lumps.len() {
            return Err(LevelError::MarkerOob(marker_idx));
        }
        let ghost m = marker_idx as int;
        let nm: &'static str = "THINGS";
        proof {
            reveal_strlit("THINGS");
            assert(nm@ =~= level_lump_name(1));
        }
        let things_idx = match self.idx_of(marker_idx, 1, nm) {
            Ok(i) => i,
            Err(e) => {
                assert(!self.level_name_ok(m, 1));
                return Err(e);
            },
        };
        assert(self.level_name_ok(m, 1));
        let nm: &'static str = "LINEDEFS";
        proof {
            reveal_strlit("LINEDEFS");
            assert(nm@ =~= level_lump_name(2));
        }
        let linedefs_idx = match self.idx_of(marker_idx, 2, nm) {
            Ok(i) => i,
            Err(e) => {
                assert(!self.level_name_ok(m, 2));
                return Err(e);
            },
        };
        assert(self.level_name_ok(m, 2));
        let nm: &'static str = "SIDEDEFS";
        proof {
            reveal_strlit("SIDEDEFS");
            assert(nm@ =~= level_lump_name(3));
        }
        let sidedefs_idx = match self.idx_of(marker_idx, 3, nm) {
            Ok(i) => i,
            Err(e) => {
                assert(!self.level_name_ok(m, 3));
                return Err(e);
            },
        };
        assert(self.level_name_ok(m, 3));
        let nm: &'static str = "VERTEXES";
        proof {
            reveal_strlit("VERTEXES");
            assert(nm@ =~= level_lump_name(4));
        }
        let vertices_idx = match self.idx_of(marker_idx, 4, nm) {
            Ok(i) => i,
            Err(e) => {
                assert(!self.level_name_ok(m, 4));
                return Err(e);
            },
        };
        assert(self.level_name_ok(m, 4));
        let nm: &'static str = "SEGS";
        proof {
            reveal_strlit("SEGS");
            assert(nm@ =~= level_lump_name(5));
        }
        let segs_idx = match self.idx_of(marker_idx, 5, nm) {
            Ok(i) => i,
            Err(e) => {
                assert(!self.level_name_ok(m, 5));
                return Err(e);
            },
        };
        assert(self.level_name_ok(m, 5));
        let nm: &'static str = "SSECTORS";
        proof {
            reveal_strlit("SSECTORS");
            assert(nm@ =~= level_lump_name(6));
        }
        let subsectors_idx = match self.idx_of(marker_idx, 6, nm) {
            Ok(i) => i,
            Err(e) => {
                assert(!self.level_name_ok(m, 6));
                return Err(e);
            },
        };
        assert(self.level_name_ok(m, 6));
        let nm: &'static str = "NODES";
        proof {
            reveal_strlit("NODES");
            assert(nm@ =~= level_lump_name(7));
        }
        let nodes_idx = match self.idx_of(marker_idx, 7, nm) {
            Ok(i) => i,
            Err(e) => {
                assert(!self.level_name_ok(m, 7));
                return Err(e);
            },
        };
        assert(self.level_name_ok(m, 7));
        let nm: &'static str = "SECTORS";
        proof {
            reveal_strlit("SECTORS");
            assert(nm@ =~= level_lump_name(8));
        }
        let sectors_idx = match self.idx_of(marker_idx, 8, nm) {
            Ok(i) => i,
            Err(e) => {
                assert(!self.level_name_ok(m, 8));
                return Err(e);
            },
        };
        assert(self.level_name_ok(m, 8));
        assert(self.level_names_ok(m));
        let things = match self.lump_to_vec::<RawThing>(things_idx) {
            Ok(x) => x,
            Err(e) => {
                assert(!self.level_lump_ok(m, 1));
                return Err(LevelError::Wad(e));
            },
        };
        assert(self.level_lump_ok(m, 1));
        let linedefs = match self.lump_to_vec::<RawLinedef>(linedefs_idx) {
            Ok(x) => x,
            Err(e) => {
                assert(!self.level_lump_ok(m, 2));
                return Err(LevelError::Wad(e));
            },
        };
        assert(self.level_lump_ok(m, 2));
        let sidedefs = match self.lump_to_vec::<RawSidedef>(sidedefs_idx) {
            Ok(x) => x,
            Err(e) => {
                assert(!self.level_lump_ok(m, 3));
                return Err(LevelError::Wad(e));
            },
        };
        assert(self.level_lump_ok(m, 3));
        let vertices = match self.lump_to_vec::<RawVertex>(vertices_idx) {
            Ok(x) => x,
            Err(e) => {
                assert(!self.level_lump_ok(m, 4));
                return Err(LevelError::Wad(e));
            },
        };
        assert(self.level_lump_ok(m, 4));
        let segs = match self.lump_to_vec::<RawSeg>(segs_idx) {
            Ok(x) => x,
            Err(e) => {
                assert(!self.level_lump_ok(m, 5));
                return Err(LevelError::Wad(e));
            },
        };
        assert(self.level_lump_ok(m, 5));
        let subsectors = match self.lump_to_vec::<RawSubsector>(subsectors_idx) {
            Ok(x) => x,
            Err(e) => {
                assert(!self.level_lump_ok(m, 6));
                return Err(LevelError::Wad(e));
            },
        };
        assert(self.level_lump_ok(m, 6));
        let nodes = match self.lump_to_vec::<RawNode>(nodes_idx) {
            Ok(x) => x,
            Err(e) => {
                assert(!self.level_lump_ok(m, 7));
                return Err(LevelError::Wad(e));
            },
        };
        assert(self.level_lump_ok(m, 7));
        let sectors = match self.lump_to_vec::<RawSector>(sectors_idx) {
            Ok(x) => x,
            Err(e) => {
                assert(!self.level_lump_ok(m, 8));
                return Err(LevelError::Wad(e));
            },
        };
        assert(self.level_lump_ok(m, 8));
        assert(self.level_lumps_ok(m));
        Ok(RawLevel {
            name: Self::lump_name_str(&self.lumps[marker_idx].name).to_owned(),
            things,
            linedefs,
            sidedefs,
            vertices,
            segs,
            subsectors,
            nodes,
            sectors,
        })
    }

    /// Index `start + k` when that lump bears `name`, else `Missing(name)`.
    fn idx_of(&self, start: usize, k: usize, name: &'static str) -> (r: Result<usize, LevelError>)
        ensures
            match r {
                Ok(i) => i == start + k && i < self.lumps@.len() && lump_name_view(
                    self.lumps@[i as int].name@,
                ) == name@,
                Err(LevelError::Missing(n)) => n@ == name@ && !(start + k < self.lumps@.len()
                    && lump_name_view(self.lumps@[start + k].name@) == name@),
                Err(_) => false,
            },
    {
        if start >= self.lumps.len() || k >= self.lumps.len() - start {
            return Err(LevelError::Missing(name));
        }
        let at = start + k;
        if str_eq(Self::lump_name_str(&self.lumps[at].name), name) {
            Ok(at)
        } else {
            Err(LevelError::Missing(name))
        }
    }
}

/// The marker indices below `n` are increasing, each is a map marker below
/// `n`, and every map marker below `n` is among them.
pub proof fn law_markers_sorted(lumps: Seq<LumpInfo>, n: int)
    requires
        0 <= n <= lumps.len(),
        lumps.len() <= usize::MAX,
    ensures
        forall|a: int, b: int|
            0 <= a < b < marker_indices(lumps, n).len() ==> #[trigger] marker_indices(lumps, n)[a]
                < #[trigger] marker_indices(lumps, n)[b],
        forall|a: int|
            0 <= a < marker_indices(lumps, n).len() ==> #[trigger] marker_indices(lumps, n)[a] < n
                && is_marker_lump(lumps[marker_indices(lumps, n)[a] as int]),
        forall|i: int| 0 <= i < n && is_marker_lump(lumps[i]) ==> marker_indices(lumps, n).contains(i as usize),
    decreases n,
{
    if n > 0 {
        law_markers_sorted(lumps, n - 1);
        let prev = marker_indices(lumps, n - 1);
        let cur = marker_indices(lumps, n);
        if is_marker_lump(lumps[n - 1]) {
            assert(cur == prev.push((n - 1) as usize));
            assert forall|a: int, b: int| 0 <= a < b < cur.len() implies #[trigger] cur[a] < #[trigger] cur[b] by {
                if b == prev.len() {
                    assert(prev[a] < n - 1);
                } else {
                    assert(prev[a] < prev[b]);
                }
            }
            assert forall|a: int| 0 <= a < cur.len() implies #[trigger] cur[a] < n && is_marker_lump(
                lumps[cur[a] as int],
            ) by {
                if a < prev.len() {
                    assert(prev[a] < n - 1);
                }
            }
            assert forall|i: int| 0 <= i < n && is_marker_lump(lumps[i]) implies cur.contains(i as usize) by {
                if i < n - 1 {
                    let k = choose|k: int| 0 <= k < prev.len() && prev[k] == i as usize;
                    assert(cur[k] == i as usize);
                } else {
                    assert(cur[prev.len() as int] == i as usize);
                }
            }
        } else {
            assert forall|i: int| 0 <= i < n && is_marker_lump(lumps[i]) implies cur.contains(i as usize) by {
                assert(i < n - 1);
            }
        }
    }
}

/// Smallest and largest `x` and `y` over `vs`, starting from the empty
/// bounds `(i16::MAX, i16::MIN)` on each axis.
pub open spec fn bounds_of(vs: Seq<RawVertex>, n: int) -> (i16, i16, i16, i16)
    decreases n,
{
    if n <= 0 {
        (i16::MAX, i16::MIN, i16::MAX, i16::MIN)
    } else {
        let b = bounds_of(vs, n - 1);
        let v = vs[n - 1];
        (
            if v.x < b.0 { v.x } else { b.0 },
            if v.x > b.1 { v.x } else { b.1 },
            if v.y < b.2 { v.y } else { b.2 },
            if v.y > b.3 { v.y } else { b.3 },
        )
    }
}

/// Bounding box of a map's vertices as `(min_x, max_x, min_y, max_y)`; for
/// no vertices the empty bounds `(i16::MAX, i16::MIN, i16::MAX, i16::MIN)`.
pub fn vertex_bounds(vertices: &[RawVertex]) -> (r: (i16, i16, i16, i16))
    ensures
        r == bounds_of(vertices@, vertices@.len() as int),
        forall|i: int|
            0 <= i < vertices@.len() ==> r.0 <= (#[trigger] vertices@[i]).x <= r.1 && r.2 <= vertices@[i].y <= r.3,
{
    let mut lo_x = i16::MAX;
    let mut hi_x = i16::MIN;
    let mut lo_y = i16::MAX;
    let mut hi_y = i16::MIN;
    let mut i: usize = 0;
    while i < vertices.len()
        invariant
            i <= vertices@.len(),
            (lo_x, hi_x, lo_y, hi_y) == bounds_of(vertices@, i as int),
            forall|j: int| 0 <= j < i ==> lo_x <= (#[trigger] vertices@[j]).x <= hi_x && lo_y <= vertices@[j].y <= hi_y,
        decreases vertices@.len() - i,
    {
        let v = &vertices[i];
        if v.x < lo_x {
            lo_x = v.x;
        }
        if v.x > hi_x {
            hi_x = v.x;
        }
        if v.y < lo_y {
            lo_y = v.y;
        }
        if v.y > hi_y {
            hi_y = v.y;
        }
        i += 1;
    }
    (lo_x, hi_x, lo_y, hi_y)
}

} // verus!
