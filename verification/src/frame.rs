//! Captured frames: their checks, their grey values, and crops of them.
//!
//! Capturing and decoding are done elsewhere. Nothing here looks outside the pixels it is given.
use crate::text::{self, decimal};
use vstd::prelude::*;

verus! {

/// The most bytes that a captured frame may have.
pub const MAX_RAW_FRAME_BYTES: usize = 134_217_728;

/// The largest width and height of a frame.
pub const MAX_FRAME_DIMENSION: u32 = 16_384;

/// Why a frame, a fingerprint or an observation cannot be used.
#[derive(Debug, PartialEq, Eq)]
pub enum RecognitionError {
    EmptyFrame,
    EmptyCrop,
    FrameTooLarge,
    InvalidBytesPerRow { actual: usize, minimum: usize },
    InvalidBufferLength { actual: usize, expected: usize },
    InvalidGeometry(&'static str),
    CropOutOfBounds,
    EmptyFingerprintCatalog,
    DuplicateCardId(String),
    InvalidCardId,
    InvalidMatcherConfig(&'static str),
    InvalidAggregationConfig(&'static str),
    ExpectedOfferCount { expected: usize, actual: usize },
    InvalidCandidateEvidence,
    NoObservations,
    TooManyObservations,
}

/// The model of an error.
pub enum FaultModel {
    EmptyFrame,
    EmptyCrop,
    FrameTooLarge,
    InvalidBytesPerRow { actual: nat, minimum: nat },
    InvalidBufferLength { actual: nat, expected: nat },
    InvalidGeometry(Seq<char>),
    CropOutOfBounds,
    EmptyFingerprintCatalog,
    DuplicateCardId(Seq<char>),
    InvalidCardId,
    InvalidMatcherConfig(Seq<char>),
    InvalidAggregationConfig(Seq<char>),
    ExpectedOfferCount { expected: nat, actual: nat },
    InvalidCandidateEvidence,
    NoObservations,
    TooManyObservations,
}

impl View for RecognitionError {
    type V = FaultModel;

    open spec fn view(&self) -> FaultModel {
        match self {
            RecognitionError::EmptyFrame => FaultModel::EmptyFrame,
            RecognitionError::EmptyCrop => FaultModel::EmptyCrop,
            RecognitionError::FrameTooLarge => FaultModel::FrameTooLarge,
            RecognitionError::InvalidBytesPerRow { actual, minimum } => {
                FaultModel::InvalidBytesPerRow { actual: *actual as nat, minimum: *minimum as nat }
            },
            RecognitionError::InvalidBufferLength { actual, expected } => {
                FaultModel::InvalidBufferLength {
                    actual: *actual as nat,
                    expected: *expected as nat,
                }
            },
            RecognitionError::InvalidGeometry(reason) => FaultModel::InvalidGeometry(reason@),
            RecognitionError::CropOutOfBounds => FaultModel::CropOutOfBounds,
            RecognitionError::EmptyFingerprintCatalog => FaultModel::EmptyFingerprintCatalog,
            RecognitionError::DuplicateCardId(id) => FaultModel::DuplicateCardId(id@),
            RecognitionError::InvalidCardId => FaultModel::InvalidCardId,
            RecognitionError::InvalidMatcherConfig(reason) => FaultModel::InvalidMatcherConfig(
                reason@,
            ),
            RecognitionError::InvalidAggregationConfig(reason) => {
                FaultModel::InvalidAggregationConfig(reason@)
            },
            RecognitionError::ExpectedOfferCount { expected, actual } => {
                FaultModel::ExpectedOfferCount {
                    expected: *expected as nat,
                    actual: *actual as nat,
                }
            },
            RecognitionError::InvalidCandidateEvidence => FaultModel::InvalidCandidateEvidence,
            RecognitionError::NoObservations => FaultModel::NoObservations,
            RecognitionError::TooManyObservations => FaultModel::TooManyObservations,
        }
    }
}

impl FaultModel {
    /// The words for an error.
    pub open spec fn says(self) -> Seq<char> {
        match self {
            FaultModel::EmptyFrame => "frame dimensions must be non-zero"@,
            FaultModel::EmptyCrop => "crop dimensions must be non-zero"@,
            FaultModel::FrameTooLarge => "frame exceeds recognition safety limits"@,
            FaultModel::InvalidBytesPerRow { actual, minimum } => "frame stride of "@ + decimal(
                actual,
            ) + " bytes is smaller than the required "@ + decimal(minimum) + " bytes"@,
            FaultModel::InvalidBufferLength { actual, expected } => "frame buffer contains "@
                + decimal(actual) + " bytes but "@ + decimal(expected) + " were required"@,
            FaultModel::InvalidGeometry(reason) => "invalid crop geometry: "@ + reason,
            FaultModel::CropOutOfBounds => "crop falls outside the source frame"@,
            FaultModel::EmptyFingerprintCatalog => "fingerprint catalog is empty"@,
            FaultModel::DuplicateCardId(id) => "duplicate fingerprint for card "@ + id,
            FaultModel::InvalidCardId => "card ID must not be empty"@,
            FaultModel::InvalidMatcherConfig(reason) => "invalid matcher config: "@ + reason,
            FaultModel::InvalidAggregationConfig(reason) => "invalid aggregation config: "@ + reason,
            FaultModel::ExpectedOfferCount { expected, actual } => "expected "@ + decimal(expected)
                + " offer items, received "@ + decimal(actual),
            FaultModel::InvalidCandidateEvidence => "candidate evidence is invalid"@,
            FaultModel::NoObservations => "no recognition observations were accumulated"@,
            FaultModel::TooManyObservations => "observation counter overflowed"@,
        }
    }
}

fn with_number(before: &str, n: usize, after: &str) -> (r: String)
    ensures
        r@ == before@ + decimal(n as nat) + after@,
{
    let mut out = text::copy(before);
    text::push_decimal(&mut out, n as u64);
    out.append(after);
    out
}

fn with_reason(before: &str, reason: &str) -> (r: String)
    ensures
        r@ == before@ + reason@,
{
    let mut out = text::copy(before);
    out.append(reason);
    out
}

impl RecognitionError {
    /// The words for an error.
    pub fn message(&self) -> (r: String)
        ensures
            r@ == self@.says(),
    {
        match self {
            RecognitionError::EmptyFrame => text::copy("frame dimensions must be non-zero"),
            RecognitionError::EmptyCrop => text::copy("crop dimensions must be non-zero"),
            RecognitionError::FrameTooLarge => text::copy("frame exceeds recognition safety limits"),
            RecognitionError::InvalidBytesPerRow { actual, minimum } => {
                let mut out = with_number(
                    "frame stride of ",
                    *actual,
                    " bytes is smaller than the required ",
                );
                text::push_decimal(&mut out, *minimum as u64);
                out.append(" bytes");
                out
            },
            RecognitionError::InvalidBufferLength { actual, expected } => {
                let mut out = with_number("frame buffer contains ", *actual, " bytes but ");
                text::push_decimal(&mut out, *expected as u64);
                out.append(" were required");
                out
            },
            RecognitionError::InvalidGeometry(reason) => with_reason(
                "invalid crop geometry: ",
                reason,
            ),
            RecognitionError::CropOutOfBounds => text::copy("crop falls outside the source frame"),
            RecognitionError::EmptyFingerprintCatalog => text::copy("fingerprint catalog is empty"),
            RecognitionError::DuplicateCardId(id) => with_reason(
                "duplicate fingerprint for card ",
                id.as_str(),
            ),
            RecognitionError::InvalidCardId => text::copy("card ID must not be empty"),
            RecognitionError::InvalidMatcherConfig(reason) => with_reason(
                "invalid matcher config: ",
                reason,
            ),
            RecognitionError::InvalidAggregationConfig(reason) => with_reason(
                "invalid aggregation config: ",
                reason,
            ),
            RecognitionError::ExpectedOfferCount { expected, actual } => {
                let mut out = with_number("expected ", *expected, " offer items, received ");
                text::push_decimal(&mut out, *actual as u64);
                out
            },
            RecognitionError::InvalidCandidateEvidence => text::copy("candidate evidence is invalid"),
            RecognitionError::NoObservations => text::copy(
                "no recognition observations were accumulated",
            ),
            RecognitionError::TooManyObservations => text::copy("observation counter overflowed"),
        }
    }
}

/// Whether a check found what the model says: nothing, or the fault.
pub open spec fn checked(r: Result<(), RecognitionError>, fault: Option<FaultModel>) -> bool {
    match r {
        Ok(()) => fault is None,
        Err(e) => fault == Some(e@),
    }
}

/// A part of a frame, in pixels.
#[derive(Clone, Copy, Debug, PartialEq, Eq, Structural)]
pub struct PixelRect {
    pub x: u32,
    pub y: u32,
    pub width: u32,
    pub height: u32,
}

impl PixelRect {
    /// What is wrong with a part of a frame.
    pub open spec fn fault_within(self, frame_width: u32, frame_height: u32) -> Option<FaultModel> {
        if self.width == 0 || self.height == 0 {
            Some(FaultModel::EmptyCrop)
        } else if self.x + self.width > frame_width || self.y + self.height > frame_height {
            Some(FaultModel::CropOutOfBounds)
        } else {
            None
        }
    }

    /// Whether this is a part of a frame.
    pub fn validate_within(self, frame_width: u32, frame_height: u32) -> (r: Result<
        (),
        RecognitionError,
    >)
        ensures
            checked(r, self.fault_within(frame_width, frame_height)),
    {
        if self.width == 0 || self.height == 0 {
            return Err(RecognitionError::EmptyCrop);
        }
        let right: u32 = match self.x.checked_add(self.width) {
            Some(right) => right,
            None => return Err(RecognitionError::CropOutOfBounds),
        };
        let bottom: u32 = match self.y.checked_add(self.height) {
            Some(bottom) => bottom,
            None => return Err(RecognitionError::CropOutOfBounds),
        };
        if right > frame_width || bottom > frame_height {
            return Err(RecognitionError::CropOutOfBounds);
        }
        Ok(())
    }
}

/// How the bytes of a frame make up its pixels.
#[derive(Clone, Copy, Debug, PartialEq, Eq, Structural)]
pub enum PixelFormat {
    Gray8,
    Rgba8,
    Bgra8,
    Argb8,
}

impl PixelFormat {
    /// The number of bytes of a pixel.
    pub open spec fn width(self) -> nat {
        match self {
            PixelFormat::Gray8 => 1,
            _ => 4,
        }
    }

    fn bytes_per_pixel(self) -> (r: usize)
        ensures
            r == self.width(),
    {
        match self {
            PixelFormat::Gray8 => 1,
            PixelFormat::Rgba8 | PixelFormat::Bgra8 | PixelFormat::Argb8 => 4,
        }
    }
}

/// What is wrong with the size of a frame.
pub open spec fn size_fault(width: nat, height: nat) -> Option<FaultModel> {
    if width == 0 || height == 0 {
        Some(FaultModel::EmptyFrame)
    } else if width > MAX_FRAME_DIMENSION || height > MAX_FRAME_DIMENSION {
        Some(FaultModel::FrameTooLarge)
    } else {
        None
    }
}

fn validate_dimensions(width: u32, height: u32) -> (r: Result<(), RecognitionError>)
    ensures
        checked(r, size_fault(width as nat, height as nat)),
{
    if width == 0 || height == 0 {
        return Err(RecognitionError::EmptyFrame);
    }
    if width > MAX_FRAME_DIMENSION || height > MAX_FRAME_DIMENSION {
        return Err(RecognitionError::FrameTooLarge);
    }
    Ok(())
}

/// What is wrong with a frame of grey values.
pub open spec fn gray_fault(width: nat, height: nat, len: nat) -> Option<FaultModel> {
    match size_fault(width, height) {
        Some(fault) => Some(fault),
        None => if width * height > MAX_RAW_FRAME_BYTES {
            Some(FaultModel::FrameTooLarge)
        } else if len != width * height {
            Some(FaultModel::InvalidBufferLength { actual: len, expected: width * height })
        } else {
            None
        },
    }
}

proof fn frames_fit(width: int, height: int)
    by (nonlinear_arith)
    requires
        0 <= width <= 16_384,
        0 <= height <= 16_384,
    ensures
        0 <= width * height <= 268_435_456,
{
}

fn validate_gray(width: u32, height: u32, len: usize) -> (r: Result<(), RecognitionError>)
    ensures
        checked(r, gray_fault(width as nat, height as nat, len as nat)),
{
    match validate_dimensions(width, height) {
        Err(e) => return Err(e),
        Ok(()) => {},
    }
    proof {
        frames_fit(width as int, height as int);
    }
    let count: usize = width as usize * height as usize;
    if count > MAX_RAW_FRAME_BYTES {
        return Err(RecognitionError::FrameTooLarge);
    }
    if len != count {
        return Err(RecognitionError::InvalidBufferLength { actual: len, expected: count });
    }
    Ok(())
}

/// The brightness of a colour, from weights that add up to two hundred and fifty-six.
pub open spec fn luma_of(red: u8, green: u8, blue: u8) -> u8 {
    ((77 * red + 150 * green + 29 * blue + 128) / 256) as u8
}

fn luma(red: u8, green: u8, blue: u8) -> (r: u8)
    ensures
        r == luma_of(red, green, blue),
{
    ((77 * red as u32 + 150 * green as u32 + 29 * blue as u32 + 128) / 256) as u8
}

/// A captured frame. A row may be longer than its pixels.
#[derive(Debug, PartialEq, Eq)]
pub struct RawFrame {
    pub width: u32,
    pub height: u32,
    pub bytes_per_row: usize,
    pub pixel_format: PixelFormat,
    pub pixels: Vec<u8>,
}

impl RawFrame {
    /// What is wrong with a captured frame.
    pub open spec fn fault(&self) -> Option<FaultModel> {
        let minimum = self.width as nat * self.pixel_format.width();
        let required = self.bytes_per_row as nat * self.height as nat;
        match size_fault(self.width as nat, self.height as nat) {
            Some(fault) => Some(fault),
            None => if self.bytes_per_row < minimum {
                Some(
                    FaultModel::InvalidBytesPerRow { actual: self.bytes_per_row as nat, minimum },
                )
            } else if required > MAX_RAW_FRAME_BYTES {
                Some(FaultModel::FrameTooLarge)
            } else if self.pixels@.len() != required {
                Some(
                    FaultModel::InvalidBufferLength {
                        actual: self.pixels@.len(),
                        expected: required,
                    },
                )
            } else {
                None
            },
        }
    }

    /// The brightness of a pixel.
    pub open spec fn gray_at(&self, x: int, y: int) -> u8 {
        let at = y * self.bytes_per_row + x * self.pixel_format.width();
        match self.pixel_format {
            PixelFormat::Gray8 => self.pixels@[at],
            PixelFormat::Rgba8 => luma_of(
                self.pixels@[at],
                self.pixels@[at + 1],
                self.pixels@[at + 2],
            ),
            PixelFormat::Bgra8 => luma_of(
                self.pixels@[at + 2],
                self.pixels@[at + 1],
                self.pixels@[at],
            ),
            PixelFormat::Argb8 => luma_of(
                self.pixels@[at + 1],
                self.pixels@[at + 2],
                self.pixels@[at + 3],
            ),
        }
    }

    /// The brightness of the first pixels of a row.
    pub open spec fn gray_row(&self, y: int, n: int) -> Seq<u8> {
        Seq::new(n as nat, |x: int| self.gray_at(x, y))
    }

    /// The brightness of the pixels of the first rows.
    pub open spec fn gray_rows(&self, n: int) -> Seq<u8>
        decreases n,
    {
        if n <= 0 {
            Seq::empty()
        } else {
            self.gray_rows(n - 1) + self.gray_row(n - 1, self.width as int)
        }
    }

    /// Whether the frame can be used.
    pub fn validate(&self) -> (r: Result<(), RecognitionError>)
        ensures
            checked(r, self.fault()),
    {
        match validate_dimensions(self.width, self.height) {
            Err(e) => return Err(e),
            Ok(()) => {},
        }
        let pixel: usize = self.pixel_format.bytes_per_pixel();
        let minimum: usize = self.width as usize * pixel;
        if self.bytes_per_row < minimum {
            return Err(
                RecognitionError::InvalidBytesPerRow { actual: self.bytes_per_row, minimum },
            );
        }
        let required: usize = match self.bytes_per_row.checked_mul(self.height as usize) {
            Some(required) => required,
            None => return Err(RecognitionError::FrameTooLarge),
        };
        if required > MAX_RAW_FRAME_BYTES {
            return Err(RecognitionError::FrameTooLarge);
        }
        if self.pixels.len() != required {
            return Err(
                RecognitionError::InvalidBufferLength {
                    actual: self.pixels.len(),
                    expected: required,
                },
            );
        }
        Ok(())
    }

    fn pixel_at(&self, offset: usize) -> (r: u8)
        requires
            offset + self.pixel_format.width() <= self.pixels@.len(),
        ensures
            r == (match self.pixel_format {
                PixelFormat::Gray8 => self.pixels@[offset as int],
                PixelFormat::Rgba8 => luma_of(
                    self.pixels@[offset as int],
                    self.pixels@[offset + 1],
                    self.pixels@[offset + 2],
                ),
                PixelFormat::Bgra8 => luma_of(
                    self.pixels@[offset + 2],
                    self.pixels@[offset + 1],
                    self.pixels@[offset as int],
                ),
                PixelFormat::Argb8 => luma_of(
                    self.pixels@[offset + 1],
                    self.pixels@[offset + 2],
                    self.pixels@[offset + 3],
                ),
            }),
    {
        assert(self.pixels@.len() == self.pixels.len());
        match self.pixel_format {
            PixelFormat::Gray8 => self.pixels[offset],
            PixelFormat::Rgba8 => luma(
                self.pixels[offset],
                self.pixels[offset + 1],
                self.pixels[offset + 2],
            ),
            PixelFormat::Bgra8 => luma(
                self.pixels[offset + 2],
                self.pixels[offset + 1],
                self.pixels[offset],
            ),
            PixelFormat::Argb8 => luma(
                self.pixels[offset + 1],
                self.pixels[offset + 2],
                self.pixels[offset + 3],
            ),
        }
    }

    /// The brightness of the pixels of a frame.
    pub fn to_grayscale(&self) -> (r: Result<GrayFrame, RecognitionError>)
        ensures
            match r {
                Err(e) => self.fault() == Some(e@),
                Ok(gray) => {
                    &&& self.fault() is None
                    &&& gray.fault() is None
                    &&& gray.width == self.width
                    &&& gray.height == self.height
                    &&& gray.pixels@ == self.gray_rows(self.height as int)
                },
            },
    {
        match self.validate() {
            Err(e) => return Err(e),
            Ok(()) => {},
        }
        let pixel: usize = self.pixel_format.bytes_per_pixel();
        let width: usize = self.width as usize;
        let height: usize = self.height as usize;
        let mut pixels: Vec<u8> = Vec::new();
        let mut y: usize = 0;
        while y < height
            invariant
                y <= height,
                self.fault() is None,
                pixel == self.pixel_format.width(),
                width == self.width,
                height == self.height,
                pixels@ == self.gray_rows(y as int),
            decreases height - y,
        {
            let ghost before = pixels@;
            proof {
                row_starts_inside(y as int, height as int, self.bytes_per_row as int);
            }
            let start: usize = y * self.bytes_per_row;
            let mut x: usize = 0;
            assert(before + self.gray_row(y as int, 0) =~= before);
            while x < width
                invariant
                    x <= width,
                    y < height,
                    self.fault() is None,
                    pixel == self.pixel_format.width(),
                    width == self.width,
                    height == self.height,
                    start == y * self.bytes_per_row,
                    start + self.bytes_per_row <= self.pixels@.len(),
                    pixels@ == before + self.gray_row(y as int, x as int),
                decreases width - x,
            {
                proof {
                    row_starts_inside(x as int, width as int, pixel as int);
                    assert(width * pixel <= self.bytes_per_row);
                }
                let offset: usize = start + x * pixel;
                pixels.push(self.pixel_at(offset));
                assert(self.gray_row(y as int, x + 1) =~= self.gray_row(y as int, x as int).push(
                    self.gray_at(x as int, y as int),
                ));
                assert(pixels@ =~= before + self.gray_row(y as int, x + 1));
                x = x + 1;
            }
            y = y + 1;
        }
        proof {
            rows_have_all_pixels(*self, height as int);
            rows_are_short(self.width as int, self.bytes_per_row as int, self.height as int, pixel as int);
        }
        GrayFrame::new(self.width, self.height, pixels)
    }
}

proof fn row_starts_inside(i: int, n: int, step: int)
    by (nonlinear_arith)
    requires
        0 <= i < n,
        0 <= step,
    ensures
        0 <= i * step,
        i * step + step <= n * step,
{
}

proof fn rows_are_short(width: int, row: int, height: int, pixel: int)
    by (nonlinear_arith)
    requires
        1 <= pixel,
        0 <= width,
        0 <= height,
        width * pixel <= row,
    ensures
        width * height <= row * height,
{
}

proof fn rows_have_all_pixels(frame: RawFrame, n: int)
    requires
        0 <= n,
    ensures
        frame.gray_rows(n).len() == frame.width * n,
    decreases n,
{
    if n > 0 {
        rows_have_all_pixels(frame, n - 1);
        assert(frame.width * (n - 1) + frame.width == frame.width * n) by (nonlinear_arith);
    } else {
        assert(frame.width * n == 0) by (nonlinear_arith)
            requires
                n == 0,
        ;
    }
}

/// The brightness of the pixels of a frame, row by row.
#[derive(Debug, PartialEq, Eq)]
pub struct GrayFrame {
    pub width: u32,
    pub height: u32,
    pub pixels: Vec<u8>,
}

impl GrayFrame {
    /// What is wrong with a frame.
    pub open spec fn fault(&self) -> Option<FaultModel> {
        gray_fault(self.width as nat, self.height as nat, self.pixels@.len())
    }

    /// The brightness of a pixel.
    pub open spec fn at(&self, x: int, y: int) -> u8 {
        self.pixels@[y * self.width + x]
    }

    /// The pixels of the first rows of a part.
    pub open spec fn part(&self, rect: PixelRect, n: int) -> Seq<u8>
        decreases n,
    {
        if n <= 0 {
            Seq::empty()
        } else {
            self.part(rect, n - 1) + Seq::new(
                rect.width as nat,
                |x: int| self.at(rect.x + x, rect.y + n - 1),
            )
        }
    }

    /// A frame of grey values.
    pub fn new(width: u32, height: u32, pixels: Vec<u8>) -> (r: Result<Self, RecognitionError>)
        ensures
            match r {
                Err(e) => gray_fault(width as nat, height as nat, pixels@.len()) == Some(e@),
                Ok(gray) => {
                    &&& gray_fault(width as nat, height as nat, pixels@.len()) is None
                    &&& gray.width == width
                    &&& gray.height == height
                    &&& gray.pixels@ == pixels@
                },
            },
    {
        match validate_gray(width, height, pixels.len()) {
            Err(e) => Err(e),
            Ok(()) => Ok(GrayFrame { width, height, pixels }),
        }
    }

    /// Whether the frame can be used.
    pub fn validate(&self) -> (r: Result<(), RecognitionError>)
        ensures
            checked(r, self.fault()),
    {
        validate_gray(self.width, self.height, self.pixels.len())
    }

    /// What is wrong with a crop.
    pub open spec fn crop_fault(&self, rect: PixelRect) -> Option<FaultModel> {
        match self.fault() {
            Some(fault) => Some(fault),
            None => rect.fault_within(self.width, self.height),
        }
    }

    /// A part of the frame.
    pub fn crop(&self, rect: PixelRect) -> (r: Result<GrayFrame, RecognitionError>)
        ensures
            match r {
                Err(e) => self.crop_fault(rect) == Some(e@),
                Ok(gray) => {
                    &&& self.crop_fault(rect) is None
                    &&& gray.fault() is None
                    &&& gray.width == rect.width
                    &&& gray.height == rect.height
                    &&& gray.pixels@ == self.part(rect, rect.height as int)
                },
            },
    {
        match self.validate() {
            Err(e) => return Err(e),
            Ok(()) => {},
        }
        match rect.validate_within(self.width, self.height) {
            Err(e) => return Err(e),
            Ok(()) => {},
        }
        let width: usize = self.width as usize;
        let mut pixels: Vec<u8> = Vec::new();
        let mut row: usize = 0;
        while row < rect.height as usize
            invariant
                row <= rect.height,
                width == self.width,
                self.fault() is None,
                rect.fault_within(self.width, self.height) is None,
                pixels@ == self.part(rect, row as int),
            decreases rect.height - row,
        {
            let ghost before = pixels@;
            proof {
                row_starts_inside(rect.y + row, self.height as int, width as int);
                assert(self.height * width == width * self.height) by (nonlinear_arith);
            }
            let start: usize = (rect.y as usize + row) * width + rect.x as usize;
            let mut x: usize = 0;
            let ghost line = Seq::new(
                rect.width as nat,
                |x: int| self.at(rect.x + x, rect.y + (row + 1) - 1),
            );
            while x < rect.width as usize
                invariant
                    x <= rect.width,
                    row < rect.height,
                    width == self.width,
                    start == (rect.y + row) * width + rect.x,
                    start + rect.width <= self.pixels@.len(),
                    line.len() == rect.width,
                    forall|k: int|
                        0 <= k < line.len() ==> #[trigger] line[k] == self.at(
                            rect.x + k,
                            rect.y + row,
                        ),
                    pixels@ =~= before + line.take(x as int),
                decreases rect.width - x,
            {
                assert(self.pixels@.len() == self.pixels.len());
                pixels.push(self.pixels[start + x]);
                assert(line.take(x + 1) =~= line.take(x as int).push(line[x as int]));
                x = x + 1;
            }
            assert(line.take(x as int) =~= line);
            row = row + 1;
        }
        proof {
            parts_have_all_pixels(*self, rect, rect.height as int);
            parts_are_smaller(
                rect.width as int,
                rect.height as int,
                self.width as int,
                self.height as int,
            );
        }
        GrayFrame::new(rect.width, rect.height, pixels)
    }

    /// The brightness of a pixel.
    pub(crate) fn pixel(&self, x: u32, y: u32) -> (r: u8)
        requires
            self.fault() is None,
            x < self.width,
            y < self.height,
        ensures
            r == self.at(x as int, y as int),
    {
        proof {
            row_starts_inside(y as int, self.height as int, self.width as int);
            assert(self.height * self.width == self.width * self.height) by (nonlinear_arith);
        }
        self.pixels[y as usize * self.width as usize + x as usize]
    }
}

proof fn parts_are_smaller(w: int, h: int, width: int, height: int)
    by (nonlinear_arith)
    requires
        0 <= w <= width,
        0 <= h <= height,
    ensures
        w * h <= width * height,
{
}

proof fn parts_have_all_pixels(frame: GrayFrame, rect: PixelRect, n: int)
    requires
        0 <= n,
    ensures
        frame.part(rect, n).len() == rect.width * n,
    decreases n,
{
    if n > 0 {
        parts_have_all_pixels(frame, rect, n - 1);
        assert(rect.width * (n - 1) + rect.width == rect.width * n) by (nonlinear_arith);
    } else {
        assert(rect.width * n == 0) by (nonlinear_arith)
            requires
                n == 0,
        ;
    }
}

/// A pixel of a crop is the one of the frame that stands there.
pub proof fn crops_keep_their_pixels(
    frame: GrayFrame,
    rect: PixelRect,
    crop: GrayFrame,
    x: int,
    y: int,
)
    requires
        crop.width == rect.width,
        crop.height == rect.height,
        crop.pixels@ == frame.part(rect, rect.height as int),
        0 <= x < rect.width,
        0 <= y < rect.height,
    ensures
        crop.at(x, y) == frame.at(rect.x + x, rect.y + y),
{
    part_pixel(frame, rect, rect.height as int, x, y);
}

proof fn part_pixel(frame: GrayFrame, rect: PixelRect, n: int, x: int, y: int)
    requires
        0 <= x < rect.width,
        0 <= y < n,
    ensures
        0 <= y * rect.width + x < frame.part(rect, n).len(),
        frame.part(rect, n)[y * rect.width + x] == frame.at(rect.x + x, rect.y + y),
    decreases n,
{
    parts_have_all_pixels(frame, rect, n - 1);
    parts_have_all_pixels(frame, rect, n);
    assert(rect.width * y == y * rect.width) by (nonlinear_arith);
    if y < n - 1 {
        part_pixel(frame, rect, n - 1, x, y);
        row_starts_inside(n - 1, n, rect.width as int);
        assert(rect.width * (n - 1) <= rect.width * n) by (nonlinear_arith);
    } else {
        assert(rect.width * y + rect.width == rect.width * n) by (nonlinear_arith)
            requires
                y == n - 1,
        ;
    }
}

/// A grey frame has the brightness of every pixel of the frame that it was made of.
pub proof fn grey_frames_keep_their_pixels(frame: RawFrame, gray: GrayFrame, x: int, y: int)
    requires
        gray.width == frame.width,
        gray.height == frame.height,
        gray.pixels@ == frame.gray_rows(frame.height as int),
        0 <= x < frame.width,
        0 <= y < frame.height,
    ensures
        gray.at(x, y) == frame.gray_at(x, y),
{
    row_pixel(frame, frame.height as int, x, y);
}

proof fn row_pixel(frame: RawFrame, n: int, x: int, y: int)
    requires
        0 <= x < frame.width,
        0 <= y < n,
    ensures
        0 <= y * frame.width + x < frame.gray_rows(n).len(),
        frame.gray_rows(n)[y * frame.width + x] == frame.gray_at(x, y),
    decreases n,
{
    rows_have_all_pixels(frame, n - 1);
    rows_have_all_pixels(frame, n);
    assert(frame.width * y == y * frame.width) by (nonlinear_arith);
    if y < n - 1 {
        row_pixel(frame, n - 1, x, y);
        assert(frame.width * (n - 1) <= frame.width * n) by (nonlinear_arith);
    } else {
        assert(frame.width * y + frame.width == frame.width * n) by (nonlinear_arith)
            requires
                y == n - 1,
        ;
    }
}

} // verus!
