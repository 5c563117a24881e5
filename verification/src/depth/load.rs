//! Depth maps in their two file formats.

use vstd::prelude::*;
use vstd::string::*;
use vstd::utf8::*;

use crate::bits::Single;
use crate::depth::bilinear::{on_axis, resize_bilinear, resized, AxisPoint};
use crate::depth::directory::decodable;
use crate::depth::paths::{confidence_ending, confidence_path, depth_ending, replaced};
use crate::names::{components, PathName};
use crate::text::{decimal, push_count, text_of};

verus! {

/// The width of a raw depth map.
pub const SRC_W: usize = 256;

/// The height of a raw depth map.
pub const SRC_H: usize = 192;

/// The format of a depth map's file.
#[derive(Clone, Copy, Debug, PartialEq, Eq, Structural)]
pub enum DepthFormat {
    /// Single-channel float32 samples in a TIFF file.
    Tiff,
    /// Raw float32 samples, to be used where the confidence is high enough.
    Bin { min_confidence: u8 },
}

/// A per-view depth map that is loaded when it is needed.
#[derive(Debug)]
pub struct LoadDepth {
    pub path: PathName,
    pub format: DepthFormat,
}

/// The error of the `tiff` crate's decoder, `tiff::TiffError`. It is carried
/// through unopened: nothing is claimed of it.
#[verifier::external_type_specification]
#[verifier::external_body]
pub struct ExTiffError(tiff::TiffError);

/// Why a depth map could not be decoded.
#[derive(Debug)]
pub enum LoadDepthError {
    /// The file is not a TIFF file that can be decoded.
    LoadTiffError(tiff::TiffError),
    /// The contents of the file are not a depth map that can be used.
    ReadTiffError(String),
}

/// What a TIFF file holds: its samples as float32 bit patterns, if they are
/// float32, and its dimensions.
#[derive(Debug)]
pub struct TiffReading {
    pub samples: Option<Vec<u32>>,
    pub width: u32,
    pub height: u32,
}

impl View for TiffReading {
    type V = (Option<Seq<u32>>, u32, u32);

    open spec fn view(&self) -> (Option<Seq<u32>>, u32, u32) {
        (
            match self.samples {
                Some(s) => Some(s@),
                None => None,
            },
            self.width,
            self.height,
        )
    }
}

/// What the `tiff` decoder reads out of a file: the bit patterns of its
/// samples, if they are float32, its width and its height; or that it refuses
/// the file. Of a sample that is not a number only that is fixed: where the
/// decoder inverts it, its bits are the machine's choice.
pub uninterp spec fn tiff_content(bytes: Seq<u8>) -> Option<(Option<Seq<u32>>, u32, u32)>;

/// The same number: the same bits, or no number both times.
pub open spec fn same_number(a: u32, b: u32) -> bool {
    a == b || ((Single { bits: a }).nan() && (Single { bits: b }).nan())
}

/// The same numbers in the same order.
pub open spec fn same_numbers(a: Seq<u32>, b: Seq<u32>) -> bool {
    a.len() == b.len() && forall|i: int|
        0 <= i < a.len() ==> same_number(#[trigger] a[i], b[i])
}

/// The same contents of a TIFF file, up to the bits of what is not a number.
pub open spec fn same_content(
    a: (Option<Seq<u32>>, u32, u32),
    b: (Option<Seq<u32>>, u32, u32),
) -> bool {
    &&& match (a.0, b.0) {
        (Some(s), Some(t)) => same_numbers(s, t),
        (None, None) => true,
        _ => false,
    }
    &&& a.1 == b.1
    &&& a.2 == b.2
}

/// Calls `Decoder::new`, `Decoder::read_image` and `Decoder::dimensions` of the
/// `tiff` crate, one after the other: the decoder is a reader with a position,
/// so only the three together are a function of the file. The outcome is the
/// one named by `tiff_content`: of float32 samples it gives the numbers, of any
/// other samples only that they are others.
///
/// The decoder panics where there is no first value of the sample format, where
/// the number of strips or tiles does not fit its integer, where it cannot
/// reserve memory for a row of a tile, and in LZW where it reads a tile row by
/// row and a row ends with a code among the last eight bytes. Such files are
/// left out, and with the last of them all that are read in that way. Left out
/// are also those few that are within its memory limit on some machines only.
#[verifier::external_body]
fn read_tiff(bytes: &[u8]) -> (reading: Result<TiffReading, tiff::TiffError>)
    requires
        decodable(bytes@),
    ensures
        match reading {
            Ok(r) => tiff_content(bytes@) matches Some(content) && same_content(r@, content),
            Err(_) => tiff_content(bytes@) is None,
        },
{
    let mut decoder = tiff::decoder::Decoder::new(std::io::Cursor::new(bytes))?;
    let image = decoder.read_image()?;
    let (width, height) = decoder.dimensions()?;
    let samples = match image {
        tiff::decoder::DecodingResult::F32(v) => {
            Some(v.into_iter().map(|x| x.to_bits()).collect())
        },
        _ => None,
    };
    Ok(TiffReading { samples, width, height })
}

/// Numbers with the given bit patterns.
pub open spec fn singles(bits: Seq<u32>) -> Seq<Single> {
    Seq::new(bits.len(), |i: int| Single { bits: bits[i] })
}

/// The outcome is an error that says `text`.
pub open spec fn refused_with<T>(outcome: Result<T, LoadDepthError>, text: Seq<char>) -> bool {
    outcome matches Err(LoadDepthError::ReadTiffError(t)) && t@ == text
}

/// The outcome for a TIFF file with the given contents.
pub open spec fn single_channel_outcome(
    content: (Option<Seq<u32>>, u32, u32),
    outcome: Result<(Vec<Single>, usize, usize), LoadDepthError>,
) -> bool {
    match content.0 {
        None => refused_with(outcome, "unsupported TIFF sample format (expected float32 depth)"@),
        Some(samples) => if content.1 * content.2 != samples.len() {
            refused_with(outcome, "expected only a single channel"@)
        } else {
            outcome matches Ok((depth, w, h)) && depth@ == singles(samples) && w == content.1 && h
                == content.2
        },
    }
}

/// The samples of a depth map are the given numbers.
pub open spec fn holds(depth: Seq<Single>, samples: Seq<u32>) -> bool {
    depth.len() == samples.len() && forall|i: int|
        0 <= i < depth.len() ==> same_number((#[trigger] depth[i]).bits, samples[i])
}

/// The depth map in a TIFF file's contents: samples, width and height. The
/// samples have to be float32, one for each pixel.
pub fn single_channel(reading: TiffReading) -> (outcome: Result<
    (Vec<Single>, usize, usize),
    LoadDepthError,
>)
    ensures
        single_channel_outcome(reading@, outcome),
        outcome is Ok <==> (reading.samples matches Some(s) && s@.len() == reading.width
            * reading.height),
        reading.samples matches Some(s) ==> (outcome matches Ok((depth, w, h)) ==> {
            &&& w == reading.width
            &&& h == reading.height
            &&& depth@.len() == s@.len()
            &&& forall|i: int|
                0 <= i < depth@.len() ==> (#[trigger] depth@[i]).bits == s@[i]
        }),
        outcome matches Err(e) ==> (e matches LoadDepthError::ReadTiffError(t) && t@
            == if reading.samples is None {
            "unsupported TIFF sample format (expected float32 depth)"@
        } else {
            "expected only a single channel"@
        }),
{
    let samples = match reading.samples {
        None => {
            return Err(
                LoadDepthError::ReadTiffError(
                    text_of("unsupported TIFF sample format (expected float32 depth)"),
                ),
            );
        },
        Some(samples) => samples,
    };
    assert(reading.width * reading.height <= u64::MAX) by (nonlinear_arith)
        requires
            reading.width <= u32::MAX,
            reading.height <= u32::MAX,
    ;
    let area: u64 = reading.width as u64 * reading.height as u64;
    if area != samples.len() as u64 {
        return Err(LoadDepthError::ReadTiffError(text_of("expected only a single channel")));
    }
    let mut depth: Vec<Single> = Vec::new();
    let mut i: usize = 0;
    while i < samples.len()
        invariant
            i <= samples@.len(),
            depth@.len() == i,
            forall|j: int| 0 <= j < i ==> #[trigger] depth@[j] == (Single { bits: samples@[j] }),
        decreases samples.len() - i,
    {
        depth.push(Single { bits: samples[i] });
        i = i + 1;
    }
    assert(depth@ =~= singles(samples@));
    Ok((depth, reading.width as usize, reading.height as usize))
}

/// The outcome of decoding a TIFF file.
pub open spec fn tiff_outcome(
    bytes: Seq<u8>,
    outcome: Result<(Vec<Single>, usize, usize), LoadDepthError>,
) -> bool {
    match tiff_content(bytes) {
        None => outcome matches Err(LoadDepthError::LoadTiffError(_)),
        Some((None, _, _)) => refused_with(
            outcome,
            "unsupported TIFF sample format (expected float32 depth)"@,
        ),
        Some((Some(samples), w, h)) => if w * h != samples.len() {
            refused_with(outcome, "expected only a single channel"@)
        } else {
            outcome matches Ok(decoded) && holds(decoded.0@, samples) && decoded.1 == w
                && decoded.2 == h
        },
    }
}

/// Decodes a single-channel float32 TIFF file: samples row by row, width and
/// height.
pub fn decode_f32_tiff(bytes: &[u8]) -> (outcome: Result<
    (Vec<Single>, usize, usize),
    LoadDepthError,
>)
    requires
        decodable(bytes@),
    ensures
        tiff_outcome(bytes@, outcome),
        outcome is Ok <==> (tiff_content(bytes@) matches Some((Some(samples), w, h)) && samples.len()
            == w * h),
        tiff_content(bytes@) matches Some((Some(samples), w, h)) ==> (outcome matches Ok(decoded)
            ==> decoded.0@.len() == samples.len() && decoded.1 == w && decoded.2 == h),
        tiff_content(bytes@) is None <==> outcome matches Err(LoadDepthError::LoadTiffError(_)),
{
    match read_tiff(bytes) {
        Ok(reading) => single_channel(reading),
        Err(e) => Err(LoadDepthError::LoadTiffError(e)),
    }
}

/// The text of the error for a depth map of the wrong size.
pub open spec fn wrong_size(w: nat, h: nat, expected_w: nat, expected_h: nat) -> Seq<char> {
    "invalid depth size "@ + decimal(w) + " x "@ + decimal(h) + ", expected "@ + decimal(
        expected_w,
    ) + " x "@ + decimal(expected_h)
}

/// Accepts a decoded depth map that has the expected size.
pub fn check_size(
    decoded: (Vec<Single>, usize, usize),
    expected_h: usize,
    expected_w: usize,
) -> (outcome: Result<Vec<Single>, LoadDepthError>)
    ensures
        if decoded.1 == expected_w && decoded.2 == expected_h {
            outcome matches Ok(depth) && depth@ == decoded.0@
        } else {
            refused_with(
                outcome,
                wrong_size(
                    decoded.1 as nat,
                    decoded.2 as nat,
                    expected_w as nat,
                    expected_h as nat,
                ),
            )
        },
        outcome is Ok <==> decoded.1 == expected_w && decoded.2 == expected_h,
        outcome matches Ok(depth) ==> depth@ == decoded.0@,
        outcome matches Err(e) ==> (e matches LoadDepthError::ReadTiffError(t) && t@
            == "invalid depth size "@ + decimal(decoded.1 as nat) + " x "@ + decimal(
            decoded.2 as nat,
        ) + ", expected "@ + decimal(expected_w as nat) + " x "@ + decimal(expected_h as nat)),
{
    let (depth, w, h) = decoded;
    if w != expected_w || h != expected_h {
        let mut text = text_of("invalid depth size ");
        push_count(&mut text, w);
        text.append(" x ");
        push_count(&mut text, h);
        text.append(", expected ");
        push_count(&mut text, expected_w);
        text.append(" x ");
        push_count(&mut text, expected_h);
        Err(LoadDepthError::ReadTiffError(text))
    } else {
        Ok(depth)
    }
}

/// Sample `i` of a raw depth map.
pub open spec fn raw_sample(bytes: Seq<u8>, i: int) -> Single {
    Single::of_le_bytes(bytes[4 * i], bytes[4 * i + 1], bytes[4 * i + 2], bytes[4 * i + 3])
}

/// Whether sample `i` is to be dropped for want of confidence. A confidence
/// map of another size than the depth map is not used.
pub open spec fn unsure(confidence: Option<&[u8]>, min_confidence: u8, i: int) -> bool {
    match confidence {
        Some(c) => c@.len() == SRC_W * SRC_H && c@[i] < min_confidence,
        None => false,
    }
}

/// The samples of a raw depth map: zero where the sample is not a number or
/// the confidence is too low.
pub open spec fn masked_samples(
    bytes: Seq<u8>,
    confidence: Option<&[u8]>,
    min_confidence: u8,
) -> Seq<Single> {
    Seq::new(
        (SRC_W * SRC_H) as nat,
        |i: int|
            if raw_sample(bytes, i).nan() || unsure(confidence, min_confidence, i) {
                Single { bits: 0 }
            } else {
                raw_sample(bytes, i)
            },
    )
}

/// The text of the error for a raw depth map of the wrong length.
pub open spec fn wrong_length(len: nat) -> Seq<char> {
    "invalid raw depth binary size "@ + decimal(len) + ", expected "@ + decimal(196608)
}

/// The outcome of decoding a raw depth map.
pub open spec fn bin_depth_outcome<F: Fn(
    Single,
    Single,
    Single,
    Single,
    Single,
    Single,
) -> Single>(
    bytes: Seq<u8>,
    confidence: Option<&[u8]>,
    min_confidence: u8,
    columns: Seq<AxisPoint<Single>>,
    rows: Seq<AxisPoint<Single>>,
    blend: F,
    outcome: Result<Vec<Single>, LoadDepthError>,
) -> bool {
    if bytes.len() != SRC_W * SRC_H * 4 {
        refused_with(outcome, wrong_length(bytes.len()))
    } else {
        outcome matches Ok(depth) && resized(
            blend,
            masked_samples(bytes, confidence, min_confidence),
            SRC_W as int,
            SRC_H as int,
            columns,
            rows,
            depth@,
        )
    }
}

/// Reads the samples of a raw depth map and drops those that cannot be used.
pub fn masked_depth(bytes: &[u8], confidence: Option<&[u8]>, min_confidence: u8) -> (depth: Vec<
    Single,
>)
    requires
        bytes@.len() == SRC_W * SRC_H * 4,
    ensures
        depth@ == masked_samples(bytes@, confidence, min_confidence),
        depth@.len() == 256 * 192,
{
    let mut depth: Vec<Single> = Vec::new();
    let mut i: usize = 0;
    while i < SRC_W * SRC_H
        invariant
            i <= SRC_W * SRC_H,
            bytes@.len() == SRC_W * SRC_H * 4,
            bytes@.len() == bytes.len(),
            depth@.len() == i,
            forall|j: int|
                0 <= j < i ==> #[trigger] depth@[j] == masked_samples(
                    bytes@,
                    confidence,
                    min_confidence,
                )[j],
        decreases SRC_W * SRC_H - i,
    {
        let sample = Single::from_le_bytes(
            bytes[i * 4],
            bytes[i * 4 + 1],
            bytes[i * 4 + 2],
            bytes[i * 4 + 3],
        );
        let dropped = match confidence {
            Some(c) => c.len() == SRC_W * SRC_H && c[i] < min_confidence,
            None => false,
        };
        if sample.is_nan() || dropped {
            depth.push(Single::zero());
        } else {
            depth.push(sample);
        }
        i = i + 1;
    }
    assert(depth@ =~= masked_samples(bytes@, confidence, min_confidence));
    depth
}

/// Decodes a raw depth map, drops the samples that cannot be used, and resizes
/// it to the given columns and rows.
pub fn decode_bin_depth<F: Fn(Single, Single, Single, Single, Single, Single) -> Single>(
    depth_bytes: &[u8],
    confidence_bytes: Option<&[u8]>,
    min_confidence: u8,
    columns: &Vec<AxisPoint<Single>>,
    rows: &Vec<AxisPoint<Single>>,
    blend: F,
) -> (outcome: Result<Vec<Single>, LoadDepthError>)
    requires
        on_axis(columns@, SRC_W as int),
        on_axis(rows@, SRC_H as int),
        forall|a: Single, b: Single, c: Single, d: Single, x: Single, y: Single|
            call_requires(blend, (a, b, c, d, x, y)),
    ensures
        bin_depth_outcome(
            depth_bytes@,
            confidence_bytes,
            min_confidence,
            columns@,
            rows@,
            blend,
            outcome,
        ),
        outcome is Ok <==> depth_bytes@.len() == 256 * 192 * 4,
        outcome matches Ok(depth) ==> depth@.len() == rows@.len() * columns@.len(),
        outcome matches Err(e) ==> (e matches LoadDepthError::ReadTiffError(t) && t@
            == "invalid raw depth binary size "@ + decimal(depth_bytes@.len()) + ", expected "@
            + decimal(196608)),
{
    if depth_bytes.len() != SRC_W * SRC_H * 4 {
        let mut text = text_of("invalid raw depth binary size ");
        push_count(&mut text, depth_bytes.len());
        text.append(", expected ");
        push_count(&mut text, SRC_W * SRC_H * 4);
        return Err(LoadDepthError::ReadTiffError(text));
    }
    let depth = masked_depth(depth_bytes, confidence_bytes, min_confidence);
    Ok(resize_bilinear(&depth, SRC_W, SRC_H, columns, rows, blend))
}

impl PartialEq for LoadDepth {
    fn eq(&self, other: &Self) -> (same: bool) {
        self.path.same_path(&other.path) && self.format == other.format
    }
}

impl vstd::std_specs::cmp::PartialEqSpecImpl for LoadDepth {
    open spec fn obeys_eq_spec() -> bool {
        true
    }

    open spec fn eq_spec(&self, other: &Self) -> bool {
        components(self.path@) == components(other.path@) && self.format == other.format
    }
}

impl Clone for LoadDepth {
    fn clone(&self) -> (copy: Self)
        ensures
            copy.path@ == self.path@,
            copy.format == self.format,
    {
        LoadDepth { path: self.path.clone(), format: self.format }
    }
}

impl LoadDepth {
    /// The depth map at `path`, in the given format.
    pub fn new(path: PathName, format: DepthFormat) -> (depth: LoadDepth)
        ensures
            depth.path == path,
            depth.format == format,
    {
        LoadDepth { path, format }
    }

    /// Where the depth map is.
    pub fn path(&self) -> (path: &PathName)
        ensures
            *path == self.path,
    {
        &self.path
    }

    /// Where the confidence map is that is to be read along with the depth
    /// map, for a format that has one.
    pub fn confidence_path(&self) -> (outcome: Result<Option<PathName>, LoadDepthError>)
        ensures
            match self.format {
                DepthFormat::Tiff => outcome matches Ok(None),
                DepthFormat::Bin { .. } => if valid_utf8(self.path@) {
                    outcome matches Ok(Some(p)) && p@ == replaced(
                        self.path@,
                        depth_ending(),
                        confidence_ending(),
                    )
                } else {
                    refused_with(outcome, "Invalid non-UTF-8 path"@)
                },
            },
    {
        match self.format {
            DepthFormat::Tiff => Ok(None),
            DepthFormat::Bin { .. } => match confidence_path(&self.path) {
                Some(path) => Ok(Some(path)),
                None => Err(LoadDepthError::ReadTiffError(text_of("Invalid non-UTF-8 path"))),
            },
        }
    }

    /// Decodes the depth map out of the bytes of its file and, for a format
    /// that has one, of its confidence map. `columns` and `rows` say where the
    /// output samples lie on a raw depth map, whose path has to be UTF-8; a
    /// TIFF file has to have the expected size itself.
    pub fn load_vec<F: Fn(Single, Single, Single, Single, Single, Single) -> Single>(
        &self,
        bytes: &[u8],
        confidence_bytes: Option<&[u8]>,
        expected_h: usize,
        expected_w: usize,
        columns: &Vec<AxisPoint<Single>>,
        rows: &Vec<AxisPoint<Single>>,
        blend: F,
    ) -> (outcome: Result<Vec<Single>, LoadDepthError>)
        requires
            self.format is Tiff ==> decodable(bytes@),
            self.format is Bin ==> {
                &&& columns@.len() == expected_w
                &&& rows@.len() == expected_h
                &&& on_axis(columns@, SRC_W as int)
                &&& on_axis(rows@, SRC_H as int)
            },
            forall|a: Single, b: Single, c: Single, d: Single, x: Single, y: Single|
                call_requires(blend, (a, b, c, d, x, y)),
        ensures
            match self.format {
                DepthFormat::Tiff => match tiff_content(bytes@) {
                    None => outcome matches Err(LoadDepthError::LoadTiffError(_)),
                    Some((None, _, _)) => refused_with(
                        outcome,
                        "unsupported TIFF sample format (expected float32 depth)"@,
                    ),
                    Some((Some(samples), w, h)) => if w * h != samples.len() {
                        refused_with(outcome, "expected only a single channel"@)
                    } else if w == expected_w && h == expected_h {
                        outcome matches Ok(depth) && holds(depth@, samples)
                    } else {
                        refused_with(
                            outcome,
                            wrong_size(w as nat, h as nat, expected_w as nat, expected_h as nat),
                        )
                    },
                },
                DepthFormat::Bin { min_confidence } => if !valid_utf8(self.path@) {
                    refused_with(outcome, "Invalid non-UTF-8 path"@)
                } else {
                    bin_depth_outcome(
                        bytes@,
                        confidence_bytes,
                        min_confidence,
                        columns@,
                        rows@,
                        blend,
                        outcome,
                    )
                },
            },
            outcome matches Ok(depth) ==> depth@.len() == expected_h * expected_w,
    {
        match self.format {
            DepthFormat::Tiff => match decode_f32_tiff(bytes) {
                Ok(decoded) => {
                    let outcome = check_size(decoded, expected_h, expected_w);
                    assert(expected_h * expected_w == expected_w * expected_h)
                        by (nonlinear_arith);
                    outcome
                },
                Err(e) => Err(e),
            },
            DepthFormat::Bin { min_confidence } => match self.confidence_path() {
                Ok(_) => decode_bin_depth(
                    bytes,
                    confidence_bytes,
                    min_confidence,
                    columns,
                    rows,
                    blend,
                ),
                Err(e) => Err(e),
            },
        }
    }
}

/// A raw depth map has a sample for each pixel, each of them a number, and
/// zero wherever the confidence is below what is asked for.
pub proof fn law_masked_samples_are_usable(
    bytes: Seq<u8>,
    confidence: Option<&[u8]>,
    min_confidence: u8,
    i: int,
)
    requires
        0 <= i < SRC_W * SRC_H,
    ensures
        !masked_samples(bytes, confidence, min_confidence)[i].nan(),
        unsure(confidence, min_confidence, i) ==> masked_samples(bytes, confidence, min_confidence)[i]
            == (Single { bits: 0 }),
{
}

/// Asking for more confidence only drops samples, and asking for none drops no
/// sample that is a number.
pub proof fn law_confidence_only_drops(
    bytes: Seq<u8>,
    confidence: Option<&[u8]>,
    less: u8,
    more: u8,
    i: int,
)
    requires
        less <= more,
        0 <= i < SRC_W * SRC_H,
    ensures
        masked_samples(bytes, confidence, more)[i] == masked_samples(bytes, confidence, less)[i]
            || masked_samples(bytes, confidence, more)[i] == (Single { bits: 0 }),
        !raw_sample(bytes, i).nan() ==> masked_samples(bytes, confidence, 0)[i] == raw_sample(
            bytes,
            i,
        ),
{
}

/// Each sample of a raw depth map is the little-endian number at its place: it
/// is kept, but for what is not a number and what a confidence map with a byte
/// for each sample rates below what is asked for, which become zero.
pub proof fn law_masked_sample(
    bytes: Seq<u8>,
    confidence: Option<&[u8]>,
    min_confidence: u8,
    i: int,
)
    requires
        0 <= i < 256 * 192,
        bytes.len() == 256 * 192 * 4,
    ensures
        masked_samples(bytes, confidence, min_confidence).len() == 256 * 192,
        ({
            let bits = bytes[4 * i] as int + bytes[4 * i + 1] as int * 0x100 + bytes[4 * i + 2] as int
                * 0x1_0000 + bytes[4 * i + 3] as int * 0x100_0000;
            let sample = masked_samples(bytes, confidence, min_confidence)[i];
            if bits % 0x8000_0000 > 0x7f80_0000 {
                sample.bits == 0
            } else {
                match confidence {
                    Some(c) => if c@.len() == 256 * 192 && c@[i] < min_confidence {
                        sample.bits == 0
                    } else {
                        sample.bits == bits
                    },
                    None => sample.bits == bits,
                }
            }
        }),
{
}

/// A raw depth map of the right length is resized from 256 by 192 samples.
pub proof fn law_raw_depth_is_resized<F: Fn(
    Single,
    Single,
    Single,
    Single,
    Single,
    Single,
) -> Single>(
    bytes: Seq<u8>,
    confidence: Option<&[u8]>,
    min_confidence: u8,
    columns: Seq<AxisPoint<Single>>,
    rows: Seq<AxisPoint<Single>>,
    blend: F,
    depth: Vec<Single>,
)
    requires
        bin_depth_outcome(bytes, confidence, min_confidence, columns, rows, blend, Ok(depth)),
    ensures
        bytes.len() == 256 * 192 * 4,
        resized(
            blend,
            masked_samples(bytes, confidence, min_confidence),
            256,
            192,
            columns,
            rows,
            depth@,
        ),
{
}

/// A depth map that holds the samples of a file has one number for each of
/// them, in their order: bit for bit, unless it is not a number.
pub proof fn law_held_samples(depth: Seq<Single>, samples: Seq<u32>, i: int)
    requires
        holds(depth, samples),
        0 <= i < samples.len(),
    ensures
        depth.len() == samples.len(),
        samples[i] as int % 0x8000_0000 <= 0x7f80_0000 ==> depth[i].bits == samples[i],
        samples[i] as int % 0x8000_0000 > 0x7f80_0000 ==> depth[i].bits as int % 0x8000_0000
            > 0x7f80_0000,
{
    assert(same_number(depth[i].bits, samples[i]));
}

/// What is refused with a text is an error, and its text is that text.
pub proof fn law_refusal<T>(outcome: Result<T, LoadDepthError>, text: Seq<char>)
    requires
        refused_with(outcome, text),
    ensures
        outcome matches Err(LoadDepthError::ReadTiffError(t)) && t@ == text,
{
}

/// The texts of the errors tell the sizes.
pub proof fn law_sizes_are_told(w: nat, h: nat, expected_w: nat, expected_h: nat)
    ensures
        wrong_size(w, h, expected_w, expected_h) == "invalid depth size "@ + decimal(w) + " x "@
            + decimal(h) + ", expected "@ + decimal(expected_w) + " x "@ + decimal(expected_h),
        wrong_length(w) == "invalid raw depth binary size "@ + decimal(w) + ", expected "@
            + decimal(256 * 192 * 4),
{
}

} // verus!
