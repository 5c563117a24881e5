//! The first directory of a TIFF file, as far as it decides whether the file
//! can be handed to the decoder.

use vstd::prelude::*;

verus! {

/// The tag of the image's width.
pub const IMAGE_WIDTH: u16 = 256;

/// The tag of the image's height.
pub const IMAGE_LENGTH: u16 = 257;

/// The tag of the list of sample widths.
pub const BITS_PER_SAMPLE: u16 = 258;

/// The tag of how the samples are compressed.
pub const COMPRESSION: u16 = 259;

/// The tag of the list of where the strips are.
pub const STRIP_OFFSETS: u16 = 273;

/// The tag of the number of samples of each pixel.
pub const SAMPLES_PER_PIXEL: u16 = 277;

/// The tag of the height of a strip.
pub const ROWS_PER_STRIP: u16 = 278;

/// The tag of the list of how long the strips are.
pub const STRIP_BYTE_COUNTS: u16 = 279;

/// The tag of how the samples of a pixel are stored: together, or in planes.
pub const PLANAR_CONFIGURATION: u16 = 284;

/// The tag of how samples are predicted from those before them.
pub const PREDICTOR: u16 = 317;

/// The tag of the width of a tile.
pub const TILE_WIDTH: u16 = 322;

/// The tag of the height of a tile.
pub const TILE_LENGTH: u16 = 323;

/// The tag of the list of where the tiles are.
pub const TILE_OFFSETS: u16 = 324;

/// The tag of the list of how long the tiles are.
pub const TILE_BYTE_COUNTS: u16 = 325;

/// The tag of the list of sample formats.
pub const SAMPLE_FORMAT: u16 = 339;

/// Lists of up to so many values are within the decoder's limit on every
/// machine.
pub const SHORT_LIST: u64 = 0x80_0000;

/// Lists of more values than that are beyond the decoder's limit on every
/// machine.
pub const LONG_LIST: u64 = 0x100_0000;

/// The compression of Lempel, Ziv and Welch.
pub const LZW: u32 = 5;

/// The predictor of floating-point samples.
pub const FLOATING_POINT: u32 = 3;

/// The most samples in a row of a tile that the decoder holds in memory: at
/// eight bytes each they take up as much as it allows a whole image.
pub const MAX_HELD_ROW: u64 = 0x200_0000;

/// The most samples in a row of a tile: at eight bytes each, the row's length
/// is a number of 32 bits.
pub const MAX_TILE_ROW: u64 = 0x1fff_ffff;

/// How the numbers of a TIFF file are written.
#[derive(Clone, Copy, Debug)]
pub struct Layout {
    /// The least significant byte comes first.
    pub little: bool,
    /// Offsets and counts have eight bytes, not four.
    pub wide: bool,
}

impl Layout {
    /// The number in the two bytes from `at`.
    pub open spec fn number16(self, b: Seq<u8>, at: int) -> nat {
        if self.little {
            (b[at] + 0x100 * b[at + 1]) as nat
        } else {
            (0x100 * b[at] + b[at + 1]) as nat
        }
    }

    /// The number in the four bytes from `at`.
    pub open spec fn number32(self, b: Seq<u8>, at: int) -> nat {
        if self.little {
            self.number16(b, at) + 0x1_0000 * self.number16(b, at + 2)
        } else {
            0x1_0000 * self.number16(b, at) + self.number16(b, at + 2)
        }
    }

    /// The number in the eight bytes from `at`.
    pub open spec fn number64(self, b: Seq<u8>, at: int) -> nat {
        if self.little {
            self.number32(b, at) + 0x1_0000_0000 * self.number32(b, at + 4)
        } else {
            0x1_0000_0000 * self.number32(b, at) + self.number32(b, at + 4)
        }
    }

    /// How many bytes an offset or a count has.
    pub open spec fn word_len(self) -> int {
        if self.wide {
            8
        } else {
            4
        }
    }

    /// The offset or count in the bytes from `at`.
    pub open spec fn word(self, b: Seq<u8>, at: int) -> nat {
        if self.wide {
            self.number64(b, at)
        } else {
            self.number32(b, at)
        }
    }

    /// The type of the values of the entry at `at`.
    pub open spec fn kind(self, b: Seq<u8>, at: int) -> nat {
        self.number16(b, at + 2)
    }

    /// How many values the entry at `at` has.
    pub open spec fn count(self, b: Seq<u8>, at: int) -> nat {
        self.word(b, at + 4)
    }

    /// Where the entry at `at` has its values, or their offset.
    pub open spec fn field(self, at: int) -> int {
        at + 4 + self.word_len()
    }

    /// How many bytes the entry at `at` has. One of a type that is not known is
    /// passed over as if it were a short one.
    pub open spec fn entry_len(self, b: Seq<u8>, at: int) -> int {
        if known_kind(self.kind(b, at)) {
            4 + 2 * self.word_len()
        } else {
            12
        }
    }
}

/// The types that values can have.
pub open spec fn known_kind(kind: nat) -> bool {
    1 <= kind <= 13 || 16 <= kind <= 18
}

/// The layout that a file's header declares, and where the first directory is;
/// `None` where there is no such header.
pub open spec fn header(b: Seq<u8>) -> Option<(Layout, nat)> {
    if b.len() < 8 || b[0] != b[1] || !(b[0] == 0x49 || b[0] == 0x4d) {
        None
    } else {
        let short = Layout { little: b[0] == 0x49, wide: false };
        let long = Layout { little: b[0] == 0x49, wide: true };
        if short.number16(b, 2) == 42 {
            Some((short, short.number32(b, 4)))
        } else if short.number16(b, 2) == 43 && b.len() >= 16 && short.number16(b, 4) == 8
            && short.number16(b, 6) == 0 {
            Some((long, long.number64(b, 8)))
        } else {
            None
        }
    }
}

/// Where the entries of a directory are, by their tags: of the `left` entries
/// from `at` those of a known type, and of several with one tag the last.
/// `None` where the file ends before the directory does.
pub open spec fn entries(l: Layout, b: Seq<u8>, at: int, left: nat) -> Option<Map<nat, int>>
    decreases left,
{
    if left == 0 {
        if at + l.word_len() <= b.len() {
            Some(Map::empty())
        } else {
            None
        }
    } else if at + 12 > b.len() || at + l.entry_len(b, at) > b.len() {
        None
    } else {
        match entries(l, b, at + l.entry_len(b, at), (left - 1) as nat) {
            None => None,
            Some(later) => if known_kind(l.kind(b, at)) && !later.contains_key(
                l.number16(b, at),
            ) {
                Some(later.insert(l.number16(b, at), at))
            } else {
                Some(later)
            },
        }
    }
}

/// The layout of a file and the entries of its first directory; `None` where
/// the header or the directory is not complete.
pub open spec fn first_directory(b: Seq<u8>) -> Option<(Layout, Map<nat, int>)> {
    match header(b) {
        None => None,
        Some((l, at)) => {
            let size: int = if l.wide {
                8
            } else {
                2
            };
            let left = if l.wide {
                l.number64(b, at as int)
            } else {
                l.number16(b, at as int)
            };
            if at + size > b.len() {
                None
            } else {
                match entries(l, b, at + size, left) {
                    None => None,
                    Some(found) => Some((l, found)),
                }
            }
        },
    }
}

/// The number of the entry at `at`, where it has exactly one, an unsigned one
/// of at most 32 bits.
pub open spec fn scalar(l: Layout, b: Seq<u8>, at: int) -> Option<nat> {
    let kind = l.kind(b, at);
    let field = l.field(at);
    let place = if (kind == 16 || kind == 18) && !l.wide {
        l.number32(b, field) as int
    } else {
        field
    };
    if l.count(b, at) != 1 {
        None
    } else if kind == 1 || kind == 7 {
        Some(b[field] as nat)
    } else if kind == 3 {
        Some(l.number16(b, field))
    } else if kind == 4 || kind == 13 {
        Some(l.number32(b, field))
    } else if (kind == 16 || kind == 18) && place + 8 <= b.len() && l.number64(b, place)
        <= u32::MAX {
        Some(l.number64(b, place))
    } else {
        None
    }
}

/// The number of the entry with the given tag, or `other` where there is no
/// such entry.
pub open spec fn value_or(
    l: Layout,
    b: Seq<u8>,
    dir: Map<nat, int>,
    tag: u16,
    other: Option<nat>,
) -> Option<nat> {
    if dir.contains_key(tag as nat) {
        scalar(l, b, dir[tag as nat])
    } else {
        other
    }
}

/// Whether the entry at `at` has a value. One of text has none where the text
/// is empty: where its bytes are all zero, if they are in the entry itself, or
/// else where the first of them is.
pub open spec fn has_value(l: Layout, b: Seq<u8>, at: int) -> bool {
    let count = l.count(b, at);
    let field = l.field(at);
    if l.kind(b, at) != 2 {
        count > 0
    } else if count <= l.word_len() {
        exists|i: int| field <= i < field + count && #[trigger] b[i] != 0
    } else {
        l.word(b, field) + count > b.len() || b[l.word(b, field) as int] != 0
    }
}

/// Whether the decoder accepts the list of the entry at `at` is the same on
/// every machine. Its limit is one of memory, and a value takes up between 16
/// and 32 bytes; text has a limit of its own.
pub open spec fn list_fits(l: Layout, b: Seq<u8>, at: int) -> bool {
    l.kind(b, at) == 2 || l.count(b, at) <= SHORT_LIST || l.count(b, at) > LONG_LIST
}

/// Whether the decoder accepts the lists that it reads is the same on every
/// machine.
pub open spec fn lists_fit(l: Layout, b: Seq<u8>, dir: Map<nat, int>) -> bool {
    forall|tag: nat|
        (tag == BITS_PER_SAMPLE || tag == SAMPLE_FORMAT || tag == STRIP_OFFSETS || tag
            == STRIP_BYTE_COUNTS || tag == TILE_OFFSETS || tag == TILE_BYTE_COUNTS)
            && #[trigger] dir.contains_key(tag) ==> list_fits(l, b, dir[tag])
}

/// How many planes an image has.
pub open spec fn planes(l: Layout, b: Seq<u8>, dir: Map<nat, int>) -> Option<nat> {
    match value_or(l, b, dir, PLANAR_CONFIGURATION, Some(1)) {
        None => None,
        Some(stored) => if stored == 2 {
            value_or(l, b, dir, SAMPLES_PER_PIXEL, Some(1))
        } else {
            Some(1)
        },
    }
}

/// How many parts of `size` it takes to cover `len`.
pub open spec fn parts(len: nat, size: nat) -> int {
    (len + size - 1) / size as int
}

/// The image is in strips, and not in tiles.
pub open spec fn in_strips(dir: Map<nat, int>) -> bool {
    &&& dir.contains_key(STRIP_OFFSETS as nat)
    &&& dir.contains_key(STRIP_BYTE_COUNTS as nat)
    &&& !dir.contains_key(TILE_OFFSETS as nat)
    &&& !dir.contains_key(TILE_BYTE_COUNTS as nat)
}

/// The image is in tiles, and not in strips.
pub open spec fn in_tiles(dir: Map<nat, int>) -> bool {
    &&& !dir.contains_key(STRIP_OFFSETS as nat)
    &&& !dir.contains_key(STRIP_BYTE_COUNTS as nat)
    &&& dir.contains_key(TILE_OFFSETS as nat)
    &&& dir.contains_key(TILE_BYTE_COUNTS as nat)
}

/// The number of strips in all planes is one of 32 bits.
pub open spec fn strips_fit(l: Layout, b: Seq<u8>, dir: Map<nat, int>) -> bool {
    let height = value_or(l, b, dir, IMAGE_LENGTH, None);
    match (height, value_or(l, b, dir, ROWS_PER_STRIP, height), planes(l, b, dir)) {
        (Some(height), Some(rows), Some(planes)) => rows == 0 || parts(height, rows) * planes
            <= u32::MAX,
        _ => true,
    }
}

/// A row of a tile is no wider than the image, or else its length is within
/// bounds.
pub open spec fn tile_row_fits(
    width: nat,
    across: nat,
    samples: nat,
    predictor: Option<nat>,
) -> bool {
    across <= width || across * samples <= if predictor == Some(FLOATING_POINT as nat) {
        MAX_HELD_ROW
    } else {
        MAX_TILE_ROW
    }
}

/// The number of tiles in all planes is one that memory can have places for,
/// the rows of a tile are not too wide, and tiles in LZW are as wide as the
/// image.
pub open spec fn tiles_fit(l: Layout, b: Seq<u8>, dir: Map<nat, int>) -> bool {
    match (
        value_or(l, b, dir, IMAGE_WIDTH, None),
        value_or(l, b, dir, IMAGE_LENGTH, None),
        value_or(l, b, dir, TILE_WIDTH, None),
        value_or(l, b, dir, TILE_LENGTH, None),
        value_or(l, b, dir, SAMPLES_PER_PIXEL, Some(1)),
        planes(l, b, dir),
    ) {
        (
            Some(width),
            Some(height),
            Some(across),
            Some(down),
            Some(samples),
            Some(planes),
        ) => across == 0 || down == 0 || {
            &&& parts(height, down) * parts(width, across) * planes <= usize::MAX
            &&& tile_row_fits(width, across, samples, value_or(l, b, dir, PREDICTOR, Some(1)))
            &&& value_or(l, b, dir, COMPRESSION, Some(1)) == Some(LZW as nat) ==> across == width
        },
        _ => true,
    }
}

/// Whether the decoder can be given a file: its first directory, if it is
/// complete, has a value wherever it has an entry for the sample format, and
/// what it says of lists, strips and tiles is within the decoder's bounds.
pub open spec fn decodable(b: Seq<u8>) -> bool {
    match first_directory(b) {
        None => true,
        Some((l, dir)) => {
            &&& dir.contains_key(SAMPLE_FORMAT as nat) ==> has_value(
                l,
                b,
                dir[SAMPLE_FORMAT as nat],
            )
            &&& lists_fit(l, b, dir)
            &&& in_strips(dir) ==> strips_fit(l, b, dir)
            &&& in_tiles(dir) ==> tiles_fit(l, b, dir)
        },
    }
}

impl Layout {
    /// The number in the two bytes from `at`.
    fn read16(&self, bytes: &[u8], at: usize) -> (n: u16)
        requires
            at + 2 <= bytes@.len(),
        ensures
            n == self.number16(bytes@, at as int),
    {
        let first: u16 = bytes[at] as u16;
        let second: u16 = bytes[at + 1] as u16;
        if self.little {
            first + 0x100 * second
        } else {
            0x100 * first + second
        }
    }

    /// The number in the four bytes from `at`.
    fn read32(&self, bytes: &[u8], at: usize) -> (n: u32)
        requires
            at + 4 <= bytes@.len(),
        ensures
            n == self.number32(bytes@, at as int),
    {
        assert(bytes@.len() == bytes.len());
        let first: u32 = self.read16(bytes, at) as u32;
        let second: u32 = self.read16(bytes, at + 2) as u32;
        if self.little {
            first + 0x1_0000 * second
        } else {
            0x1_0000 * first + second
        }
    }

    /// The number in the eight bytes from `at`.
    fn read64(&self, bytes: &[u8], at: usize) -> (n: u64)
        requires
            at + 8 <= bytes@.len(),
        ensures
            n == self.number64(bytes@, at as int),
    {
        assert(bytes@.len() == bytes.len());
        let first: u64 = self.read32(bytes, at) as u64;
        let second: u64 = self.read32(bytes, at + 4) as u64;
        if self.little {
            first + 0x1_0000_0000 * second
        } else {
            0x1_0000_0000 * first + second
        }
    }

    /// The offset or count in the bytes from `at`.
    fn read_word(&self, bytes: &[u8], at: usize) -> (n: u64)
        requires
            at + self.word_len() <= bytes@.len(),
        ensures
            n == self.word(bytes@, at as int),
    {
        if self.wide {
            self.read64(bytes, at)
        } else {
            self.read32(bytes, at) as u64
        }
    }

    /// How many bytes an offset or a count has.
    fn word_size(&self) -> (n: usize)
        ensures
            n == self.word_len(),
    {
        if self.wide {
            8
        } else {
            4
        }
    }
}

/// Whether values can have the given type.
fn is_known_kind(kind: u16) -> (known: bool)
    ensures
        known == known_kind(kind as nat),
{
    (1 <= kind && kind <= 13) || (16 <= kind && kind <= 18)
}

/// The layout that a file's header declares, and where the first directory is.
fn read_header(bytes: &[u8]) -> (found: Option<(Layout, u64)>)
    ensures
        match found {
            None => header(bytes@) is None,
            Some((l, at)) => header(bytes@) == Some((l, at as nat)),
        },
{
    if bytes.len() < 8 || bytes[0] != bytes[1] || !(bytes[0] == 0x49 || bytes[0] == 0x4d) {
        return None;
    }
    let short = Layout { little: bytes[0] == 0x49, wide: false };
    let magic: u16 = short.read16(bytes, 2);
    if magic == 42 {
        return Some((short, short.read32(bytes, 4) as u64));
    }
    if magic == 43 && bytes.len() >= 16 && short.read16(bytes, 4) == 8 && short.read16(bytes, 6)
        == 0 {
        let long = Layout { little: short.little, wide: true };
        return Some((long, long.read64(bytes, 8)));
    }
    None
}

/// A directory: where its entries begin, and how many there are.
struct Directory<'a> {
    bytes: &'a [u8],
    layout: Layout,
    start: usize,
    left: u64,
}

impl<'a> Directory<'a> {
    /// Where the entries are, by their tags.
    spec fn map(self) -> Option<Map<nat, int>> {
        entries(self.layout, self.bytes@, self.start as int, self.left as nat)
    }

    /// A complete entry is at `at`.
    spec fn entry_at(self, at: int) -> bool {
        0 <= at && at + 4 + 2 * self.layout.word_len() <= self.bytes@.len()
    }

    /// Looks for the entry with the given tag: `None` where the directory is
    /// not complete.
    fn find(&self, tag: u16) -> (found: Option<Option<usize>>)
        requires
            self.start <= self.bytes@.len(),
        ensures
            match found {
                None => self.map() is None,
                Some(None) => self.map() matches Some(dir) && !dir.contains_key(tag as nat),
                Some(Some(at)) => self.entry_at(at as int) && (self.map() matches Some(dir)
                    && dir.contains_key(tag as nat) && dir[tag as nat] == at),
            },
    {
        let l = self.layout;
        let bytes = self.bytes;
        let ghost b = bytes@;
        let ghost whole = self.map();
        let ghost t = tag as nat;
        let mut at: usize = self.start;
        let mut left: u64 = self.left;
        let mut found: Option<usize> = None;
        while left > 0
            invariant
                at <= b.len(),
                b == bytes@,
                l == self.layout,
                bytes == self.bytes,
                t == tag,
                whole == self.map(),
                found matches Some(p) ==> self.entry_at(p as int),
                match entries(l, b, at as int, left as nat) {
                    None => whole is None,
                    Some(later) => whole matches Some(dir) && (if later.contains_key(t) {
                        dir.contains_key(t) && dir[t] == later[t]
                    } else {
                        match found {
                            None => !dir.contains_key(t),
                            Some(p) => dir.contains_key(t) && dir[t] == p,
                        }
                    }),
                },
            decreases left,
        {
            if bytes.len() - at < 12 {
                return None;
            }
            let known = is_known_kind(l.read16(bytes, at + 2));
            let size: usize = if known {
                4 + 2 * l.word_size()
            } else {
                12
            };
            if bytes.len() - at < size {
                return None;
            }
            if known && l.read16(bytes, at) == tag {
                found = Some(at);
            }
            at = at + size;
            left = left - 1;
        }
        if bytes.len() - at < l.word_size() {
            return None;
        }
        Some(found)
    }

    /// The entry with the given tag.
    fn entry(&self, tag: u16) -> (found: Option<usize>)
        requires
            self.start <= self.bytes@.len(),
            self.map() is Some,
        ensures
            match found {
                None => !self.map()->0.contains_key(tag as nat),
                Some(at) => self.entry_at(at as int) && self.map()->0.contains_key(tag as nat)
                    && self.map()->0[tag as nat] == at,
            },
    {
        match self.find(tag) {
            Some(found) => found,
            None => None,
        }
    }

    /// The number of the entry at `at`, where it has exactly one.
    fn scalar(&self, at: usize) -> (n: Option<u32>)
        requires
            self.entry_at(at as int),
        ensures
            match n {
                None => scalar(self.layout, self.bytes@, at as int) is None,
                Some(n) => scalar(self.layout, self.bytes@, at as int) == Some(n as nat),
            },
    {
        let l = self.layout;
        let bytes = self.bytes;
        assert(bytes@.len() == bytes.len());
        let kind: u16 = l.read16(bytes, at + 2);
        let field: usize = at + 4 + l.word_size();
        if l.read_word(bytes, at + 4) != 1 {
            return None;
        }
        if kind == 1 || kind == 7 {
            return Some(bytes[field] as u32);
        }
        if kind == 3 {
            return Some(l.read16(bytes, field) as u32);
        }
        if kind == 4 || kind == 13 {
            return Some(l.read32(bytes, field));
        }
        if kind != 16 && kind != 18 {
            return None;
        }
        let place: usize = if l.wide {
            field
        } else {
            l.read32(bytes, field) as usize
        };
        if bytes.len() < 8 || place > bytes.len() - 8 {
            return None;
        }
        let n: u64 = l.read64(bytes, place);
        if n <= u32::MAX as u64 {
            Some(n as u32)
        } else {
            None
        }
    }

    /// The number of the entry with the given tag, or `other` where there is
    /// no such entry.
    fn value_or(&self, tag: u16, other: Option<u32>) -> (n: Option<u32>)
        requires
            self.start <= self.bytes@.len(),
            self.map() is Some,
        ensures
            number(n) == value_or(
                self.layout,
                self.bytes@,
                self.map()->0,
                tag,
                number(other),
            ),
    {
        match self.entry(tag) {
            Some(at) => self.scalar(at),
            None => other,
        }
    }

    /// Whether the entry at `at` has a value.
    fn has_value(&self, at: usize) -> (r: bool)
        requires
            self.entry_at(at as int),
        ensures
            r == has_value(self.layout, self.bytes@, at as int),
    {
        let l = self.layout;
        let bytes = self.bytes;
        assert(bytes@.len() == bytes.len());
        let count: u64 = l.read_word(bytes, at + 4);
        let field: usize = at + 4 + l.word_size();
        if l.read16(bytes, at + 2) != 2 {
            return count > 0;
        }
        if count > l.word_size() as u64 {
            let place: u64 = l.read_word(bytes, field);
            let len: u64 = bytes.len() as u64;
            return place > len || count > len - place || bytes[place as usize] != 0;
        }
        let end: usize = field + count as usize;
        let mut i: usize = field;
        while i < end
            invariant
                field <= i <= end <= bytes@.len(),
                bytes@.len() == bytes.len(),
                end == field + count,
                bytes == self.bytes,
                l == self.layout,
                field == l.field(at as int),
                count == l.count(bytes@, at as int),
                l.kind(bytes@, at as int) == 2,
                count <= l.word_len(),
                forall|j: int| field <= j < i ==> #[trigger] bytes@[j] == 0,
            decreases end - i,
        {
            if bytes[i] != 0 {
                return true;
            }
            i = i + 1;
        }
        false
    }

    /// Whether the decoder treats the list with the given tag, if there is one,
    /// the same on every machine.
    fn list_fits(&self, tag: u16) -> (r: bool)
        requires
            self.start <= self.bytes@.len(),
            self.map() is Some,
        ensures
            r == (self.map()->0.contains_key(tag as nat) ==> list_fits(
                self.layout,
                self.bytes@,
                self.map()->0[tag as nat],
            )),
    {
        match self.entry(tag) {
            Some(at) => {
                assert(self.bytes@.len() == self.bytes.len());
                let count: u64 = self.layout.read_word(self.bytes, at + 4);
                self.layout.read16(self.bytes, at + 2) == 2 || count <= SHORT_LIST || count
                    > LONG_LIST
            },
            None => true,
        }
    }

    /// Whether the decoder treats the lists that it reads the same on every
    /// machine.
    fn lists_fit(&self) -> (r: bool)
        requires
            self.start <= self.bytes@.len(),
            self.map() is Some,
        ensures
            r == lists_fit(self.layout, self.bytes@, self.map()->0),
    {
        self.list_fits(BITS_PER_SAMPLE) && self.list_fits(SAMPLE_FORMAT) && self.list_fits(
            STRIP_OFFSETS,
        ) && self.list_fits(STRIP_BYTE_COUNTS) && self.list_fits(TILE_OFFSETS) && self.list_fits(
            TILE_BYTE_COUNTS,
        )
    }

    /// How many planes the image has.
    fn planes(&self) -> (n: Option<u32>)
        requires
            self.start <= self.bytes@.len(),
            self.map() is Some,
        ensures
            number(n) == planes(self.layout, self.bytes@, self.map()->0),
    {
        match self.value_or(PLANAR_CONFIGURATION, Some(1)) {
            None => None,
            Some(stored) => if stored == 2 {
                self.value_or(SAMPLES_PER_PIXEL, Some(1))
            } else {
                Some(1)
            },
        }
    }

    /// Whether the number of strips in all planes is one of 32 bits.
    fn strips_fit(&self) -> (r: bool)
        requires
            self.start <= self.bytes@.len(),
            self.map() is Some,
        ensures
            r == strips_fit(self.layout, self.bytes@, self.map()->0),
    {
        let height = self.value_or(IMAGE_LENGTH, None);
        match (height, self.value_or(ROWS_PER_STRIP, height), self.planes()) {
            (Some(height), Some(rows), Some(planes)) => {
                if rows == 0 {
                    return true;
                }
                let strips: u64 = count_parts(height, rows);
                proof {
                    lemma_product(strips as int, planes as int);
                }
                strips * planes as u64 <= u32::MAX as u64
            },
            _ => true,
        }
    }

    /// Whether the number of tiles in all planes is one that memory can have
    /// places for, the rows of a tile are not too wide, and tiles in LZW are as
    /// wide as the image.
    fn tiles_fit(&self) -> (r: bool)
        requires
            self.start <= self.bytes@.len(),
            self.map() is Some,
        ensures
            r == tiles_fit(self.layout, self.bytes@, self.map()->0),
    {
        match (
            self.value_or(IMAGE_WIDTH, None),
            self.value_or(IMAGE_LENGTH, None),
            self.value_or(TILE_WIDTH, None),
            self.value_or(TILE_LENGTH, None),
            self.value_or(SAMPLES_PER_PIXEL, Some(1)),
            self.planes(),
        ) {
            (
                Some(width),
                Some(height),
                Some(across),
                Some(down),
                Some(samples),
                Some(planes),
            ) => {
                if across == 0 || down == 0 {
                    return true;
                }
                let rows: u64 = count_parts(height, down);
                let columns: u64 = count_parts(width, across);
                proof {
                    lemma_product(rows as int, columns as int);
                    lemma_product(across as int, samples as int);
                }
                let tiles: u64 = rows * columns;
                assert(tiles * planes <= u64::MAX * u32::MAX) by (nonlinear_arith)
                    requires
                        tiles <= u64::MAX,
                        planes <= u32::MAX,
                ;
                let lzw = match self.value_or(COMPRESSION, Some(1)) {
                    Some(method) => method == LZW,
                    None => false,
                };
                let most: u64 = match self.value_or(PREDICTOR, Some(1)) {
                    Some(predictor) => if predictor == FLOATING_POINT {
                        MAX_HELD_ROW
                    } else {
                        MAX_TILE_ROW
                    },
                    None => MAX_TILE_ROW,
                };
                tiles as u128 * planes as u128 <= usize::MAX as u128 && (across <= width
                    || across as u64 * samples as u64 <= most) && (!lzw || across == width)
            },
            _ => true,
        }
    }

    /// Whether the decoder can be given a file with this directory.
    fn fits(&self) -> (r: bool)
        requires
            self.start <= self.bytes@.len(),
            self.map() is Some,
        ensures
            r == {
                let dir = self.map()->0;
                &&& dir.contains_key(SAMPLE_FORMAT as nat) ==> has_value(
                    self.layout,
                    self.bytes@,
                    dir[SAMPLE_FORMAT as nat],
                )
                &&& lists_fit(self.layout, self.bytes@, dir)
                &&& in_strips(dir) ==> strips_fit(self.layout, self.bytes@, dir)
                &&& in_tiles(dir) ==> tiles_fit(self.layout, self.bytes@, dir)
            },
    {
        if let Some(at) = self.entry(SAMPLE_FORMAT) {
            if !self.has_value(at) {
                return false;
            }
        }
        if !self.lists_fit() {
            return false;
        }
        let strip_offsets = self.entry(STRIP_OFFSETS).is_some();
        let strip_byte_counts = self.entry(STRIP_BYTE_COUNTS).is_some();
        let tile_offsets = self.entry(TILE_OFFSETS).is_some();
        let tile_byte_counts = self.entry(TILE_BYTE_COUNTS).is_some();
        if strip_offsets && strip_byte_counts && !tile_offsets && !tile_byte_counts {
            self.strips_fit()
        } else if !strip_offsets && !strip_byte_counts && tile_offsets && tile_byte_counts {
            self.tiles_fit()
        } else {
            true
        }
    }
}

/// A number, if there is one.
spec fn number(n: Option<u32>) -> Option<nat> {
    match n {
        None => None,
        Some(n) => Some(n as nat),
    }
}

/// The product of two numbers of 32 bits is one of 64.
proof fn lemma_product(a: int, b: int)
    requires
        0 <= a <= u32::MAX,
        0 <= b <= u32::MAX,
    ensures
        0 <= a * b <= u64::MAX,
{
    assert(0 <= a * b <= u32::MAX * u32::MAX) by (nonlinear_arith)
        requires
            0 <= a <= u32::MAX,
            0 <= b <= u32::MAX,
    ;
}

/// How many parts of `size` it takes to cover `len`.
fn count_parts(len: u32, size: u32) -> (n: u64)
    requires
        size > 0,
    ensures
        n == parts(len as nat, size as nat),
        n <= u32::MAX,
{
    let n: u64 = (len as u64 + size as u64 - 1) / size as u64;
    assert((len + size - 1) / (size as int) <= u32::MAX) by (nonlinear_arith)
        requires
            0 <= len <= u32::MAX,
            0 < size <= u32::MAX,
    ;
    n
}

/// Whether the decoder can be given a file.
pub fn is_decodable(bytes: &[u8]) -> (r: bool)
    ensures
        r == decodable(bytes@),
{
    let (layout, at) = match read_header(bytes) {
        Some(found) => found,
        None => {
            return true;
        },
    };
    let size: usize = if layout.wide {
        8
    } else {
        2
    };
    if at > bytes.len() as u64 || bytes.len() - (at as usize) < size {
        return true;
    }
    let at: usize = at as usize;
    let left: u64 = if layout.wide {
        layout.read64(bytes, at)
    } else {
        layout.read16(bytes, at) as u64
    };
    let directory = Directory { bytes, layout, start: at + size, left };
    match directory.find(SAMPLE_FORMAT) {
        Some(_) => directory.fits(),
        None => true,
    }
}

/// Numbers are read in the order of bytes that the layout has: the first byte
/// counts least, or it counts most.
pub proof fn law_numbers_of_a_layout(l: Layout, b: Seq<u8>, at: int)
    ensures
        l.little ==> {
            &&& l.number16(b, at) == b[at] + 0x100 * b[at + 1]
            &&& l.number32(b, at) == b[at] + 0x100 * b[at + 1] + 0x1_0000 * b[at + 2] + 0x100_0000
                * b[at + 3]
            &&& l.number64(b, at) == l.number32(b, at) + 0x1_0000_0000 * l.number32(b, at + 4)
        },
        !l.little ==> {
            &&& l.number16(b, at) == b[at + 1] + 0x100 * b[at]
            &&& l.number32(b, at) == b[at + 3] + 0x100 * b[at + 2] + 0x1_0000 * b[at + 1]
                + 0x100_0000 * b[at]
            &&& l.number64(b, at) == l.number32(b, at + 4) + 0x1_0000_0000 * l.number32(b, at)
        },
{
}

/// A file that does not start as a TIFF file does can be handed to the decoder.
pub proof fn law_other_files_are_decodable(b: Seq<u8>)
    requires
        b.len() < 8 || !(b[0] == 0x49 && b[1] == 0x49 || b[0] == 0x4d && b[1] == 0x4d),
    ensures
        decodable(b),
{
}

/// An image in strips can be handed to the decoder where its entries have a
/// value each, its lists are short, and its samples are stored together.
pub proof fn law_ordinary_strips_are_decodable(
    b: Seq<u8>,
    l: Layout,
    dir: Map<nat, int>,
    height: nat,
    rows: nat,
)
    requires
        first_directory(b) == Some((l, dir)),
        forall|tag: nat| #[trigger] dir.contains_key(tag) ==> l.kind(b, dir[tag]) != 2,
        forall|tag: nat| #[trigger]
            dir.contains_key(tag) ==> 1 <= l.count(b, dir[tag]) <= 0x80_0000,
        dir.contains_key(273) && dir.contains_key(279),
        !dir.contains_key(324) && !dir.contains_key(325),
        !dir.contains_key(284),
        dir.contains_key(257) && scalar(l, b, dir[257]) == Some(height),
        dir.contains_key(278) && scalar(l, b, dir[278]) == Some(rows),
        height <= u32::MAX,
        rows >= 1,
    ensures
        decodable(b),
{
    assert((height + rows - 1) / (rows as int) <= u32::MAX) by (nonlinear_arith)
        requires
            height <= u32::MAX,
            rows >= 1,
    ;
    assert(parts(height, rows) * 1 <= u32::MAX);
}

} // verus!
