//! In-memory IWAD: header and lump directory parsing, zero-copy lump access
//! and typed decoding of fixed-size lump records.

use vstd::prelude::*;
use vstd::utf8::*;
use crate::le::{u32_le, read_u32_at};
use crate::text::str_from_utf8;
use crate::text::str_eq;

verus! {

/// One entry in the lump directory (16 bytes on disk).
#[derive(Clone, Copy, Debug)]
pub struct LumpInfo {
    pub name: [u8; 8],
    pub offset: u32,
    pub size: u32,
}

/// Entire WAD in memory: the raw file bytes and the parsed directory.
#[derive(Debug)]
pub struct Wad {
    pub lumps: Vec<LumpInfo>,
    pub bytes: Vec<u8>,
}

/// Loader / decoding errors.
#[derive(Debug)]
#[allow(inconsistent_fields)]
pub enum WadError {
    /// The file ends inside the 12-byte header.
    UnexpectedEof,
    /// The file does not start with `IWAD`.
    BadMagic,
    /// The directory extends beyond the end of the file.
    DirectoryOutOfBounds,
    /// Lump index out of range.
    BadIndex(usize),
    /// A lump's byte range extends beyond the end of the file.
    BadOffset { index: usize, name: String, offset: u32, size: u32, file_size: usize },
    /// A lump's size is zero or not a multiple of the record size.
    BadLumpSize { index: usize, name: String, size: usize, elem_size: usize },
}

/// A fixed-size record stored back to back in a lump, little-endian.
pub trait RawRecord: Sized {
    /// Size of one record in bytes.
    spec fn spec_size() -> nat;

    /// `self` is what the record bytes `b` encode.
    spec fn decoded_from(&self, b: Seq<u8>) -> bool;

    /// Size of one record in bytes.
    fn record_size() -> (n: usize)
        ensures
            n as nat == Self::spec_size(),
            n > 0,
    ;

    /// Decode one record from exactly `spec_size()` bytes.
    fn decode(b: &[u8]) -> (r: Self)
        requires
            b@.len() == Self::spec_size(),
        ensures
            r.decoded_from(b@),
    ;
}

/*──────────────────────────── lump names ─────────────────────────────*/

/// Index of the first NUL byte of `name` at or after `i`, or its length.
pub open spec fn name_end(name: Seq<u8>, i: int) -> int
    decreases name.len() - i,
{
    if i >= name.len() || name[i] == 0 {
        i
    } else {
        name_end(name, i + 1)
    }
}

/// The bytes of a lump name up to its first NUL.
pub open spec fn trimmed_name(name: Seq<u8>) -> Seq<u8> {
    name.take(name_end(name, 0))
}

/// A lump name as text: its bytes up to the first NUL decoded as UTF-8,
/// or `"?"` when they are not valid UTF-8.
pub open spec fn lump_name_view(name: Seq<u8>) -> Seq<char> {
    if valid_utf8(trimmed_name(name)) {
        decode_utf8(trimmed_name(name))
    } else {
        seq!['?']
    }
}

proof fn lemma_name_end_bounds(name: Seq<u8>, i: int)
    requires
        0 <= i <= name.len(),
    ensures
        i <= name_end(name, i) <= name.len(),
    decreases name.len() - i,
{
    if i < name.len() && name[i] != 0 {
        lemma_name_end_bounds(name, i + 1);
    }
}

/*──────────────────────────── file layout ────────────────────────────*/

/// The file starts with the magic `IWAD`.
pub open spec fn magic_ok(b: Seq<u8>) -> bool {
    b.len() >= 4 && b[0] == 0x49 && b[1] == 0x57 && b[2] == 0x41 && b[3] == 0x44
}

/// Number of directory entries announced by the header.
pub open spec fn header_num_lumps(b: Seq<u8>) -> int {
    u32_le(b, 4)
}

/// Byte offset of the directory announced by the header.
pub open spec fn header_dir_offset(b: Seq<u8>) -> int {
    u32_le(b, 8)
}

/// The whole directory lies inside the file.
pub open spec fn directory_fits(b: Seq<u8>) -> bool {
    header_dir_offset(b) + 16 * header_num_lumps(b) <= b.len()
}

/// Byte position of directory entry `i`.
pub open spec fn entry_pos(b: Seq<u8>, i: int) -> int {
    header_dir_offset(b) + 16 * i
}

/// Lump offset stored in directory entry `i`.
pub open spec fn entry_offset(b: Seq<u8>, i: int) -> int {
    u32_le(b, entry_pos(b, i))
}

/// Lump size stored in directory entry `i`.
pub open spec fn entry_size(b: Seq<u8>, i: int) -> int {
    u32_le(b, entry_pos(b, i) + 4)
}

/// Lump name bytes stored in directory entry `i`.
pub open spec fn entry_name(b: Seq<u8>, i: int) -> Seq<u8> {
    b.subrange(entry_pos(b, i) + 8, entry_pos(b, i) + 16)
}

/// Directory entry `i` describes a byte range inside the file.
pub open spec fn entry_in_bounds(b: Seq<u8>, i: int) -> bool {
    entry_offset(b, i) + entry_size(b, i) <= b.len()
}

/// `l` holds exactly what directory entry `i` of `b` stores.
pub open spec fn lump_is_entry(l: LumpInfo, b: Seq<u8>, i: int) -> bool {
    &&& l.offset as int == entry_offset(b, i)
    &&& l.size as int == entry_size(b, i)
    &&& l.name@ == entry_name(b, i)
}

/// The 32-bit little-endian value of the four bytes at `at`.
pub open spec fn le32_at(b: Seq<u8>, at: int) -> int {
    b[at] as int + 256 * b[at + 1] as int + 65536 * b[at + 2] as int + 16777216 * b[at + 3] as int
}

/// A directory read from a file's header holds, for lump `i`, the
/// offset, the size and the 8 name bytes stored in that order in the
/// `i`-th 16-byte entry of the directory, which starts at the offset
/// stored in header bytes 8..12 and has as many entries as header bytes
/// 4..8 say.
pub proof fn law_directory_layout(b: Seq<u8>, lumps: Seq<LumpInfo>)
    requires
        b.len() >= 12,
        directory_fits(b),
        lumps.len() == header_num_lumps(b),
        forall|i: int| 0 <= i < lumps.len() ==> lump_is_entry(#[trigger] lumps[i], b, i),
    ensures
        lumps.len() == le32_at(b, 4),
        forall|i: int|
            0 <= i < lumps.len() ==> {
                let e = le32_at(b, 8) + 16 * i;
                &&& (#[trigger] lumps[i]).offset as int == le32_at(b, e)
                &&& lumps[i].size as int == le32_at(b, e + 4)
                &&& forall|k: int| 0 <= k < 8 ==> #[trigger] lumps[i].name@[k] == b[e + 8 + k]
            },
{
    assert forall|i: int| 0 <= i < lumps.len() implies {
        let e = le32_at(b, 8) + 16 * i;
        &&& (#[trigger] lumps[i]).offset as int == le32_at(b, e)
        &&& lumps[i].size as int == le32_at(b, e + 4)
        &&& forall|k: int| 0 <= k < 8 ==> #[trigger] lumps[i].name@[k] == b[e + 8 + k]
    } by {
        assert(lump_is_entry(lumps[i], b, i));
    }
}

/// Lump `l` lies inside a file of `len` bytes.
pub open spec fn lump_in_bounds(l: LumpInfo, len: int) -> bool {
    l.offset as int + l.size as int <= len
}

/// The bytes of lump `l`.
pub open spec fn lump_data(bytes: Seq<u8>, l: LumpInfo) -> Seq<u8> {
    bytes.subrange(l.offset as int, l.offset as int + l.size as int)
}

impl Wad {
    /// Every lump of the directory lies inside the file.
    pub open spec fn well_formed(&self) -> bool {
        forall|i: int| 0 <= i < self.lumps@.len() ==> lump_in_bounds(#[trigger] self.lumps@[i], self.bytes@.len() as int)
    }

    /// Index of the last lump whose name reads as `name`, if any.
    pub open spec fn last_named(&self, name: Seq<char>, i: int) -> bool {
        &&& 0 <= i < self.lumps@.len()
        &&& lump_name_view(self.lumps@[i].name@) == name
        &&& forall|j: int| i < j < self.lumps@.len() ==> lump_name_view(#[trigger] self.lumps@[j].name@) != name
    }

    /// No lump's name reads as `name`.
    pub open spec fn has_no_lump(&self, name: Seq<char>) -> bool {
        forall|j: int| 0 <= j < self.lumps@.len() ==> lump_name_view(#[trigger] self.lumps@[j].name@) != name
    }

    /// The bytes of the last lump named `name`, if there is one.
    pub open spec fn lump_named(&self, name: Seq<char>) -> Option<Seq<u8>> {
        if exists|i: int| self.last_named(name, i) {
            Some(lump_data(self.bytes@, self.lumps@[choose|i: int| self.last_named(name, i)]))
        } else {
            None
        }
    }

    /// At most one lump is the last one named `name`.
    pub proof fn lemma_last_named_unique(&self, name: Seq<char>, i: int, j: int)
        requires
            self.last_named(name, i),
            self.last_named(name, j),
        ensures
            i == j,
    {
        if i < j {
            assert(lump_name_view(self.lumps@[j].name@) != name);
        } else if j < i {
            assert(lump_name_view(self.lumps@[i].name@) != name);
        }
    }

    /// What `lump_bytes(idx)` gives back: `r` is its result exactly when this holds.
    pub open spec fn lump_bytes_result(&self, idx: usize, r: Result<&[u8], WadError>) -> bool {
        match r {
            Ok(s) => idx < self.lumps@.len() && lump_in_bounds(self.lumps@[idx as int], self.bytes@.len() as int)
                && s@ == lump_data(self.bytes@, self.lumps@[idx as int]),
            Err(WadError::BadIndex(j)) => idx >= self.lumps@.len() && j == idx,
            Err(WadError::BadOffset { index, name, offset, size, file_size }) => {
                &&& idx < self.lumps@.len()
                &&& !lump_in_bounds(self.lumps@[idx as int], self.bytes@.len() as int)
                &&& index == idx
                &&& name@ == lump_name_view(self.lumps@[idx as int].name@)
                &&& offset == self.lumps@[idx as int].offset
                &&& size == self.lumps@[idx as int].size
                &&& file_size == self.bytes@.len()
            },
            Err(_) => false,
        }
    }

    /*──────────────────────────── loading ────────────────────────────*/

    /// Parse the header and directory of an IWAD image held in `bytes`.
    ///
    /// Errors, in the order they are checked: the file ends inside the magic
    /// (`UnexpectedEof`), the magic is not `IWAD` (`BadMagic`), the file ends
    /// inside the header (`UnexpectedEof`), the directory runs past the end
    /// (`DirectoryOutOfBounds`), and the first lump whose bytes run past the
    /// end (`BadOffset`).
    pub fn from_bytes(bytes: Vec<u8>) -> (r: Result<Wad, WadError>)
        ensures
            bytes@.len() < 4 ==> r matches Err(WadError::UnexpectedEof),
            bytes@.len() >= 4 && !magic_ok(bytes@) ==> r matches Err(WadError::BadMagic),
            magic_ok(bytes@) && bytes@.len() < 12 ==> r matches Err(WadError::UnexpectedEof),
            magic_ok(bytes@) && bytes@.len() >= 12 && !directory_fits(bytes@) ==> r matches Err(
                WadError::DirectoryOutOfBounds,
            ),
            magic_ok(bytes@) && bytes@.len() >= 12 && directory_fits(bytes@) ==> match r {
                Ok(w) => {
                    &&& w.bytes@ == bytes@
                    &&& w.lumps@.len() == header_num_lumps(bytes@)
                    &&& forall|i: int| 0 <= i < w.lumps@.len() ==> lump_is_entry(#[trigger] w.lumps@[i], bytes@, i)
                    &&& forall|i: int| 0 <= i < header_num_lumps(bytes@) ==> #[trigger] entry_in_bounds(bytes@, i)
                },
                Err(WadError::BadOffset { index, name, offset, size, file_size }) => {
                    &&& index < header_num_lumps(bytes@)
                    &&& !entry_in_bounds(bytes@, index as int)
                    &&& forall|j: int| 0 <= j < index ==> #[trigger] entry_in_bounds(bytes@, j)
                    &&& offset as int == entry_offset(bytes@, index as int)
                    &&& size as int == entry_size(bytes@, index as int)
                    &&& name@ == lump_name_view(entry_name(bytes@, index as int))
                    &&& file_size == bytes@.len()
                },
                Err(_) => false,
            },
            r matches Ok(w) ==> w.well_formed(),
    {
        let len = bytes.len();
        if len < 4 {
            return Err(WadError::UnexpectedEof);
        }
        if !(bytes[0] == 0x49 && bytes[1] == 0x57 && bytes[2] == 0x41 && bytes[3] == 0x44) {
            return Err(WadError::BadMagic);
        }
        if len < 12 {
            return Err(WadError::UnexpectedEof);
        }
        let b = bytes.as_slice();
        let num_lumps = read_u32_at(b, 4);
        let dir_offset = read_u32_at(b, 8);
        let dir_end: u64 = dir_offset as u64 + num_lumps as u64 * 16;
        if dir_end > len as u64 {
            return Err(WadError::DirectoryOutOfBounds);
        }

        // parse directory
        let mut lumps: Vec<LumpInfo> = Vec::new();
        let mut i: u32 = 0;
        while i < num_lumps
            invariant
                b@ == bytes@,
                len == bytes@.len(),
                magic_ok(bytes@),
                len >= 12,
                num_lumps as int == header_num_lumps(bytes@),
                dir_offset as int == header_dir_offset(bytes@),
                directory_fits(bytes@),
                i <= num_lumps,
                lumps@.len() == i,
                forall|k: int| 0 <= k < i ==> lump_is_entry(#[trigger] lumps@[k], bytes@, k),
            decreases num_lumps - i,
        {
            let at: usize = dir_offset as usize + (i as usize) * 16;
            let off = read_u32_at(b, at);
            let size = read_u32_at(b, at + 4);
            let name: [u8; 8] = [
                b[at + 8],
                b[at + 9],
                b[at + 10],
                b[at + 11],
                b[at + 12],
                b[at + 13],
                b[at + 14],
                b[at + 15],
            ];
            assert(name@ =~= entry_name(bytes@, i as int));
            lumps.push(LumpInfo { name, offset: off, size });
            i += 1;
        }

        // validate each lump slice
        let mut k: usize = 0;
        while k < lumps.len()
            invariant
                len == bytes@.len(),
                magic_ok(bytes@),
                len >= 12,
                directory_fits(bytes@),
                lumps@.len() == header_num_lumps(bytes@),
                forall|q: int| 0 <= q < lumps@.len() ==> lump_is_entry(#[trigger] lumps@[q], bytes@, q),
                k <= lumps@.len(),
                forall|q: int| 0 <= q < k ==> #[trigger] entry_in_bounds(bytes@, q),
            decreases lumps@.len() - k,
        {
            let l = &lumps[k];
            let end: u64 = l.offset as u64 + l.size as u64;
            if end > len as u64 {
                return Err(WadError::BadOffset {
                    index: k,
                    name: Self::lump_name_str(&l.name).to_owned(),
                    offset: l.offset,
                    size: l.size,
                    file_size: len,
                });
            }
            k += 1;
        }
        let w = Wad { lumps, bytes };
        assert forall|q: int| 0 <= q < w.lumps@.len() implies lump_in_bounds(#[trigger] w.lumps@[q], w.bytes@.len() as int) by {
            assert(lump_is_entry(w.lumps@[q], bytes@, q));
            assert(entry_in_bounds(bytes@, q));
        }
        Ok(w)
    }

    /// Lump `idx` exists, lies in the file, and its size is a positive
    /// multiple of `size`.
    pub open spec fn records_ok(&self, idx: int, size: nat) -> bool {
        &&& 0 <= idx < self.lumps@.len()
        &&& lump_in_bounds(self.lumps@[idx], self.bytes@.len() as int)
        &&& lump_data(self.bytes@, self.lumps@[idx]).len() > 0
        &&& lump_data(self.bytes@, self.lumps@[idx]).len() % size == 0
    }

    /// `v` holds the records of lump `idx`, one per `T::spec_size()` bytes.
    pub open spec fn records_match<T: RawRecord>(&self, idx: int, v: Seq<T>) -> bool {
        let data = lump_data(self.bytes@, self.lumps@[idx]);
        let n = T::spec_size() as int;
        &&& v.len() == data.len() / T::spec_size()
        &&& forall|k: int| 0 <= k < v.len() ==> (#[trigger] v[k]).decoded_from(data.subrange(k * n, k * n + n))
    }

    /// `e` is the error that decoding lump `idx` into `size`-byte records reports.
    pub open spec fn records_error(&self, idx: usize, size: nat, e: WadError) -> bool {
        match e {
            WadError::BadLumpSize { index, name, size: got, elem_size } => {
                &&& idx < self.lumps@.len()
                &&& lump_in_bounds(self.lumps@[idx as int], self.bytes@.len() as int)
                &&& !self.records_ok(idx as int, size)
                &&& index == idx
                &&& name@ == lump_name_view(self.lumps@[idx as int].name@)
                &&& got == lump_data(self.bytes@, self.lumps@[idx as int]).len()
                &&& elem_size == size
            },
            _ => self.lump_bytes_result(idx, Err(e)),
        }
    }

    /*────────────────────── low-level helpers ───────────────────────*/

    /// Expose the directory as a read-only slice.
    pub fn lumps(&self) -> (r: &[LumpInfo])
        ensures
            r@ == self.lumps@,
    {
        self.lumps.as_slice()
    }

    /// Text of an 8-byte lump name, cut at the first NUL; `"?"` when the
    /// bytes are not valid UTF-8.
    pub fn lump_name_str(name: &[u8; 8]) -> (r: &str)
        ensures
            r@ == lump_name_view(name@),
    {
        let s = name.as_slice();
        let mut end: usize = 0;
        while end < 8 && s[end] != 0
            invariant
                s@ == name@,
                name@.len() == 8,
                0 <= end <= 8,
                name_end(name@, 0) == name_end(name@, end as int),
            decreases 8 - end,
        {
            end += 1;
        }
        assert(name_end(name@, end as int) == end);
        let t = &s[0..end];
        assert(t@ == trimmed_name(name@));
        match str_from_utf8(t) {
            Some(x) => x,
            None => {
                proof {
                    reveal_strlit("?");
                }
                "?"
            },
        }
    }

    /// Raw bytes of lump `idx` (a slice into the file bytes).
    pub fn lump_bytes(&self, idx: usize) -> (r: Result<&[u8], WadError>)
        ensures
            self.lump_bytes_result(idx, r),
    {
        if idx >= self.lumps.len() {
            return Err(WadError::BadIndex(idx));
        }
        let l = &self.lumps[idx];
        let end: u64 = l.offset as u64 + l.size as u64;
        if end > self.bytes.len() as u64 {
            return Err(WadError::BadOffset {
                index: idx,
                name: Self::lump_name_str(&l.name).to_owned(),
                offset: l.offset,
                size: l.size,
                file_size: self.bytes.len(),
            });
        }
        let b = self.bytes.as_slice();
        Ok(&b[l.offset as usize..end as usize])
    }

    /// Decode lump `idx` as a vector of back-to-back little-endian records.
    pub fn lump_to_vec<T: RawRecord>(&self, idx: usize) -> (r: Result<Vec<T>, WadError>)
        ensures
            match r {
                Ok(v) => self.records_ok(idx as int, T::spec_size()) && self.records_match(idx as int, v@),
                Err(e) => !self.records_ok(idx as int, T::spec_size()) && self.records_error(idx, T::spec_size(), e),
            },
    {
        let bytes = match self.lump_bytes(idx) {
            Ok(b) => b,
            Err(e) => return Err(e),
        };
        let elem = T::record_size();
        if bytes.len() == 0 || bytes.len() % elem != 0 {
            return Err(WadError::BadLumpSize {
                index: idx,
                name: Self::lump_name_str(&self.lumps[idx].name).to_owned(),
                size: bytes.len(),
                elem_size: elem,
            });
        }
        let ghost data = bytes@;
        let ghost n = elem as int;
        let blen = bytes.len();
        let count = blen / elem;
        let mut out: Vec<T> = Vec::new();
        let mut k: usize = 0;
        while k < count
            invariant
                bytes@ == data,
                blen as int == data.len(),
                n == elem as int,
                n > 0,
                count as int == data.len() as int / n,
                data.len() as int % n == 0,
                n == T::spec_size(),
                k <= count,
                out@.len() == k,
                forall|q: int| 0 <= q < k ==> (#[trigger] out@[q]).decoded_from(data.subrange(q * n, q * n + n)),
            decreases count - k,
        {
            proof {
                vstd::arithmetic::div_mod::lemma_fundamental_div_mod(data.len() as int, n);
                assert((k as int) * n + n <= data.len()) by (nonlinear_arith)
                    requires
                        (k as int) < count,
                        n > 0,
                        data.len() as int == n * (count as int) + data.len() as int % n,
                        data.len() as int % n == 0,
                ;
            }
            let start = k * elem;
            let rec = T::decode(&bytes[start..start + elem]);
            out.push(rec);
            k += 1;
        }
        Ok(out)
    }

    /// Find the last lump named `name` (case-sensitive like vanilla Doom).
    pub fn find_lump(&self, name: &str) -> (r: Option<usize>)
        ensures
            match r {
                Some(i) => self.last_named(name@, i as int),
                None => self.has_no_lump(name@),
            },
    {
        let mut i = self.lumps.len();
        while i > 0
            invariant
                i <= self.lumps@.len(),
                forall|j: int| i <= j < self.lumps@.len() ==> lump_name_view(#[trigger] self.lumps@[j].name@) != name@,
            decreases i,
        {
            i -= 1;
            if str_eq(Self::lump_name_str(&self.lumps[i].name), name) {
                return Some(i);
            }
        }
        None
    }
}

/// In a well-formed WAD every lump can be read, and its bytes are as many
/// as its directory entry says.
pub proof fn law_lump_bytes_len(w: &Wad, idx: usize, r: Result<&[u8], WadError>)
    requires
        w.well_formed(),
        idx < w.lumps@.len(),
        w.lump_bytes_result(idx, r),
    ensures
        r matches Ok(s) && s@.len() == w.lumps@[idx as int].size,
{
    assert(lump_in_bounds(w.lumps@[idx as int], w.bytes@.len() as int));
}

} // verus!
