//! From line strips to the file of an image: colours, the vertices of a line
//! list, the rows of a texture that was read back, and the encoder.
use vstd::prelude::*;
use vstd::arithmetic::div_mod::lemma_fundamental_div_mod;
use vstd::arithmetic::div_mod::lemma_fundamental_div_mod_converse;
use crate::args::Output;

verus! {

/// The polyline of one curve and the colour it is drawn in, as `0x00RRGGBB`.
#[derive(Clone, Debug, PartialEq)]
pub struct LineStrip<T> {
    pub positions: Vec<[T; 2]>,
    pub color: u32,
}

/// Why no image came out.
#[derive(Clone, Copy, Debug, PartialEq, Eq, Structural)]
pub enum OutputError {
    /// A colour has bits set above its 24 bits of red, green and blue.
    InvalidColor { raw: u32 },
    /// The data is shorter than the rows that it is said to hold.
    Truncated,
    /// The encoder gave up.
    Encoding,
}

/// A colour by its channels.
#[derive(Clone, Copy, Debug, PartialEq, Eq, Structural)]
pub struct Rgb {
    pub red: u8,
    pub green: u8,
    pub blue: u8,
}

/// The number of bytes of one pixel: red, green, blue and alpha.
pub const BYTES_PER_PIXEL: u32 = 4;

/// The channels of the colour `0x00RRGGBB`.
pub open spec fn channels(raw: u32) -> Rgb {
    Rgb {
        red: (raw / 0x1_0000 % 0x100) as u8,
        green: (raw / 0x100 % 0x100) as u8,
        blue: (raw % 0x100) as u8,
    }
}

impl Rgb {
    /// The colour as one number, `0x00RRGGBB`.
    pub open spec fn packed(&self) -> nat {
        (0x1_0000 * self.red + 0x100 * self.green + self.blue) as nat
    }
}

/// The channels of a colour of 24 bits are its three bytes: packed again,
/// they give the colour back.
pub proof fn lemma_channels_pack(raw: u32)
    requires
        raw <= 0xFF_FFFF,
    ensures
        channels(raw).packed() == raw,
{
}

/// Splits a colour `0x00RRGGBB` into its channels. A colour with anything in
/// its top byte is rejected.
pub fn to_rgb(raw: u32) -> (result: Result<Rgb, OutputError>)
    ensures
        result == if raw <= 0xFF_FFFF {
            Ok::<Rgb, OutputError>(channels(raw))
        } else {
            Err::<Rgb, OutputError>(OutputError::InvalidColor { raw })
        },
{
    if raw > 0xFF_FFFF {
        return Err(OutputError::InvalidColor { raw });
    }
    Ok(
        Rgb {
            red: (raw / 0x1_0000 % 0x100) as u8,
            green: (raw / 0x100 % 0x100) as u8,
            blue: (raw % 0x100) as u8,
        },
    )
}

/// The least multiple of `alignment` that is not below `value`.
pub open spec fn aligned(value: nat, alignment: nat) -> nat
    recommends
        alignment > 0,
{
    if value % alignment == 0 {
        value
    } else {
        (value + alignment - value % alignment) as nat
    }
}

/// `aligned` is a multiple of the alignment, not below the value, and less
/// than one alignment above it: the least such multiple.
pub proof fn lemma_aligned_is_least_multiple(value: nat, alignment: nat)
    requires
        alignment > 0,
    ensures
        aligned(value, alignment) % alignment == 0,
        value <= aligned(value, alignment) < value + alignment,
{
    let rest = value % alignment;
    if rest != 0 {
        lemma_fundamental_div_mod(value as int, alignment as int);
        let quotient = value as int / alignment as int;
        assert(value + alignment - rest == (quotient + 1) * alignment + 0) by (nonlinear_arith)
            requires
                value == alignment * quotient + rest,
        ;
        lemma_fundamental_div_mod_converse(
            value + alignment - rest,
            alignment as int,
            quotient + 1,
            0,
        );
    }
}

/// Rounds `value` up to a multiple of `alignment`. There is no result for an
/// alignment of zero, nor where the multiple does not fit.
pub fn align_up(value: u64, alignment: u64) -> (result: Option<u64>)
    ensures
        result == if alignment > 0 && aligned(value as nat, alignment as nat) <= u64::MAX {
            Some(aligned(value as nat, alignment as nat) as u64)
        } else {
            None
        },
{
    if alignment == 0 {
        return None;
    }
    let rest: u64 = value % alignment;
    if rest == 0 {
        Some(value)
    } else {
        value.checked_add(alignment - rest)
    }
}

/// One attribute of a vertex: where its bytes start within the vertex, and
/// how many they are.
#[derive(Clone, Copy, Debug, PartialEq, Eq)]
pub struct Attribute {
    pub offset: u64,
    pub size: u64,
}

/// The number of bytes up to the end of the attribute that ends last.
pub open spec fn extent(attributes: Seq<Attribute>) -> nat
    decreases attributes.len(),
{
    if attributes.len() == 0 {
        0
    } else {
        let before = extent(attributes.drop_last());
        let end = (attributes.last().offset + attributes.last().size) as nat;
        if before >= end {
            before
        } else {
            end
        }
    }
}

/// The number of bytes from one vertex to the next in a vertex buffer: the
/// extent of the attributes, rounded up to a multiple of `alignment`. There
/// is none for a vertex without attributes or an alignment of zero, nor where
/// the number does not fit.
pub fn vertex_stride(attributes: &Vec<Attribute>, alignment: u64) -> (result: Option<u64>)
    ensures
        result == if attributes@.len() > 0 && alignment > 0 && aligned(
            extent(attributes@),
            alignment as nat,
        ) <= u64::MAX {
            Some(aligned(extent(attributes@), alignment as nat) as u64)
        } else {
            None
        },
{
    if attributes.len() == 0 || alignment == 0 {
        return None;
    }
    let mut reach: u64 = 0;
    let mut index: usize = 0;
    while index < attributes.len()
        invariant
            index <= attributes@.len(),
            alignment > 0,
            reach == extent(attributes@.take(index as int)),
        decreases attributes@.len() - index,
    {
        proof {
            let taken = attributes@.take(index + 1);
            assert(taken.drop_last() =~= attributes@.take(index as int));
            lemma_extent_grows(attributes@, index + 1);
        }
        let end: u64 = match attributes[index].offset.checked_add(attributes[index].size) {
            Some(end) => end,
            None => {
                return None;
            },
        };
        if end > reach {
            reach = end;
        }
        index += 1;
    }
    assert(attributes@.take(index as int) =~= attributes@);
    align_up(reach, alignment)
}

/// The extent of the first `count` attributes is not above that of all.
pub proof fn lemma_extent_grows(attributes: Seq<Attribute>, count: int)
    requires
        0 <= count <= attributes.len(),
    ensures
        extent(attributes.take(count)) <= extent(attributes),
    decreases attributes.len(),
{
    if count == attributes.len() {
        assert(attributes.take(count) =~= attributes);
    } else {
        assert(attributes.drop_last().take(count) =~= attributes.take(count));
        lemma_extent_grows(attributes.drop_last(), count);
    }
}

/// How the rows of an image lie in a buffer that a texture was copied to:
/// each row starts a whole number of strides after the first one, and the
/// bytes between the end of a row and the next stride are padding.
#[derive(Clone, Copy, Debug, PartialEq, Eq)]
pub struct RowLayout {
    width: u32,
    height: u32,
    stride: u32,
}

impl RowLayout {
    #[verifier::type_invariant]
    spec fn well_formed(&self) -> bool {
        &&& BYTES_PER_PIXEL * self.width <= self.stride
        &&& self.stride * self.height <= u32::MAX
    }

    /// The number of pixels in a row.
    pub closed spec fn spec_width(&self) -> u32 {
        self.width
    }

    /// The number of rows.
    pub closed spec fn spec_height(&self) -> u32 {
        self.height
    }

    /// The number of bytes from the start of one row to the start of the next.
    pub closed spec fn spec_stride(&self) -> u32 {
        self.stride
    }

    /// The number of bytes that the pixels of one row take.
    pub open spec fn spec_row_size(&self) -> nat {
        (BYTES_PER_PIXEL * self.spec_width()) as nat
    }

    /// Whether a buffer of `len` bytes reaches to the end of the last row.
    pub open spec fn covers(&self, len: nat) -> bool {
        self.spec_height() == 0 || (self.spec_height() - 1) * self.spec_stride()
            + self.spec_row_size() <= len
    }

    /// The pixels of all rows, one row after the other, without the padding.
    pub open spec fn unpadded(&self, data: Seq<u8>) -> Seq<u8> {
        Seq::new(
            (self.spec_height() * self.spec_row_size()) as nat,
            |p: int|
                data[(p / self.spec_row_size() as int) * self.spec_stride() + p
                    % self.spec_row_size() as int],
        )
    }

    /// Whether an image of `width` by `height` pixels has a layout with rows
    /// at multiples of `alignment`: the alignment is not zero, and the stride
    /// and the size of the whole buffer fit in 32 bits.
    pub open spec fn fits(width: u32, height: u32, alignment: u32) -> bool {
        &&& alignment > 0
        &&& aligned((BYTES_PER_PIXEL * width) as nat, alignment as nat) <= u32::MAX
        &&& aligned((BYTES_PER_PIXEL * width) as nat, alignment as nat) * height <= u32::MAX
    }

    /// The layout of an image of `width` by `height` pixels whose rows start
    /// at multiples of `alignment`: the stride is the size of a row, rounded
    /// up to the alignment. There is none for an image that does not fit.
    pub fn new(width: u32, height: u32, alignment: u32) -> (result: Option<Self>)
        ensures
            result is Some <==> Self::fits(width, height, alignment),
            result matches Some(layout) ==> {
                &&& layout.spec_width() == width
                &&& layout.spec_height() == height
                &&& layout.spec_stride() == aligned(
                    (BYTES_PER_PIXEL * width) as nat,
                    alignment as nat,
                )
            },
    {
        let row_size: u64 = BYTES_PER_PIXEL as u64 * width as u64;
        let stride: u64 = match align_up(row_size, alignment as u64) {
            Some(stride) => stride,
            None => {
                return None;
            },
        };
        if stride > u32::MAX as u64 {
            return None;
        }
        assert(stride * height <= u64::MAX) by (nonlinear_arith)
            requires
                stride <= u32::MAX,
                height <= u32::MAX,
        ;
        if stride * height as u64 > u32::MAX as u64 {
            return None;
        }
        Some(RowLayout { width, height, stride: stride as u32 })
    }

    /// The number of pixels in a row.
    pub fn width(&self) -> (width: u32)
        ensures
            width == self.spec_width(),
    {
        self.width
    }

    /// The number of rows.
    pub fn height(&self) -> (height: u32)
        ensures
            height == self.spec_height(),
    {
        self.height
    }

    /// The number of bytes from the start of one row to the start of the next.
    pub fn stride(&self) -> (stride: u32)
        ensures
            stride == self.spec_stride(),
    {
        self.stride
    }

    /// The number of bytes of a buffer that holds all rows at full stride.
    pub fn buffer_size(&self) -> (size: u32)
        ensures
            size == self.spec_stride() * self.spec_height(),
    {
        proof {
            use_type_invariant(self);
        }
        self.stride * self.height
    }

    /// Copies the pixels out of a buffer that was laid out like this, row by
    /// row and without the padding. There is no result where the buffer ends
    /// before the last row does.
    pub fn strip_padding(&self, data: &Vec<u8>) -> (result: Option<Vec<u8>>)
        ensures
            match result {
                Some(pixels) => self.covers(data@.len()) && pixels@ == self.unpadded(data@),
                None => !self.covers(data@.len()),
            },
    {
        proof {
            use_type_invariant(self);
        }
        let row_size: usize = (BYTES_PER_PIXEL * self.width) as usize;
        let stride: usize = self.stride as usize;
        let rows: usize = self.height as usize;
        let available: usize = data.len();
        if rows > 0 {
            assert((rows - 1) * stride <= stride * rows) by (nonlinear_arith)
                requires
                    rows > 0,
                    stride >= 0,
            ;
            let needed: u64 = (rows - 1) as u64 * stride as u64 + row_size as u64;
            if (available as u64) < needed {
                return None;
            }
        }
        assert(rows * row_size <= stride * rows) by (nonlinear_arith)
            requires
                row_size <= stride,
                rows >= 0,
        ;
        let mut pixels: Vec<u8> = Vec::with_capacity(rows * row_size);
        let mut row: usize = 0;
        while row < rows
            invariant
                row <= rows,
                rows == self.spec_height(),
                row_size == self.spec_row_size(),
                stride == self.spec_stride(),
                row_size <= stride,
                available == data@.len(),
                rows > 0 ==> (rows - 1) * stride + row_size <= available,
                pixels@.len() == row * row_size,
                forall|p: int|
                    0 <= p < pixels@.len() ==> pixels@[p] == data@[(p / row_size as int) * stride
                        + p % row_size as int],
            decreases rows - row,
        {
            let mut column: usize = 0;
            while column < row_size
                invariant
                    column <= row_size,
                    row < rows,
                    rows == self.spec_height(),
                    row_size == self.spec_row_size(),
                    stride == self.spec_stride(),
                    row_size <= stride,
                    available == data@.len(),
                    (rows - 1) * stride + row_size <= available,
                    pixels@.len() == row * row_size + column,
                    forall|p: int|
                        0 <= p < pixels@.len() ==> pixels@[p] == data@[(p / row_size as int)
                            * stride + p % row_size as int],
                decreases row_size - column,
            {
                proof {
                    lemma_fundamental_div_mod_converse(
                        row * row_size + column,
                        row_size as int,
                        row as int,
                        column as int,
                    );
                    assert(0 <= row * stride && row * stride + column < (rows - 1) * stride
                        + row_size) by (nonlinear_arith)
                        requires
                            0 <= row <= rows - 1,
                            column < row_size,
                            stride >= 0,
                    ;
                }
                pixels.push(data[row * stride + column]);
                column += 1;
            }
            assert((row + 1) * row_size == row * row_size + row_size) by (nonlinear_arith);
            row += 1;
        }
        Some(pixels)
    }
}

/// One end of a segment of a line list: where it is and in which colour.
#[derive(Clone, Copy, Debug, PartialEq)]
pub struct Endpoint<T> {
    pub position: [T; 2],
    pub color: Rgb,
}

impl<T> LineStrip<T> {
    /// The number of segments between neighbouring positions.
    pub open spec fn segments(&self) -> nat {
        if self.positions@.len() >= 1 {
            (self.positions@.len() - 1) as nat
        } else {
            0
        }
    }

    /// The ends of the segments, two for each segment and segment after
    /// segment: a position between two segments occurs twice.
    pub open spec fn endpoints(&self) -> Seq<Endpoint<T>> {
        Seq::new(
            2 * self.segments(),
            |end: int|
                Endpoint { position: self.positions@[(end + 1) / 2], color: channels(self.color) },
        )
    }

    /// Whether the strip has a segment to draw but no valid colour for it.
    pub open spec fn miscolored(&self) -> bool {
        self.segments() > 0 && self.color > 0xFF_FFFF
    }
}

/// The ends of the segments of all `strips`, strip after strip.
pub open spec fn line_list<T>(strips: Seq<LineStrip<T>>) -> Seq<Endpoint<T>>
    decreases strips.len(),
{
    if strips.len() == 0 {
        Seq::empty()
    } else {
        line_list(strips.drop_last()) + strips.last().endpoints()
    }
}

/// Breaks line strips up into the segments of one line list.
///
/// A strip with fewer than two positions has no segment and adds nothing. The
/// first strip that has a segment and an invalid colour stops the work.
pub fn to_line_list<T: Copy>(strips: &Vec<LineStrip<T>>) -> (result: Result<
    Vec<Endpoint<T>>,
    OutputError,
>)
    ensures
        match result {
            Ok(list) => {
                &&& list@ == line_list(strips@)
                &&& forall|i: int| 0 <= i < strips@.len() ==> !strips@[i].miscolored()
            },
            Err(error) => exists|i: int|
                {
                    &&& 0 <= i < strips@.len()
                    &&& strips@[i].miscolored()
                    &&& error == (OutputError::InvalidColor { raw: strips@[i].color })
                    &&& forall|j: int| 0 <= j < i ==> !strips@[j].miscolored()
                },
        },
{
    let mut list: Vec<Endpoint<T>> = Vec::new();
    let mut index: usize = 0;
    while index < strips.len()
        invariant
            index <= strips@.len(),
            list@ == line_list(strips@.take(index as int)),
            forall|i: int| 0 <= i < index ==> !strips@[i].miscolored(),
        decreases strips@.len() - index,
    {
        let strip = &strips[index];
        let ghost before = list@;
        let count: usize = strip.positions.len();
        if count >= 2 {
            let color = match to_rgb(strip.color) {
                Ok(color) => color,
                Err(error) => {
                    return Err(error);
                },
            };
            let mut start: usize = 0;
            while start + 1 < count
                invariant
                    start + 1 <= count,
                    count == strip.positions@.len(),
                    color == channels(strip.color),
                    list@ == before + strip.endpoints().take(2 * start),
                decreases count - start,
            {
                list.push(Endpoint { position: strip.positions[start], color });
                list.push(Endpoint { position: strip.positions[start + 1], color });
                start += 1;
            }
        }
        proof {
            let taken = strips@.take(index + 1);
            assert(taken.drop_last() =~= strips@.take(index as int));
        }
        index += 1;
    }
    assert(strips@.take(index as int) =~= strips@);
    Ok(list)
}

/// The error of the `image` crate, `image::ImageError`. The library hands it on
/// and never looks inside.
#[verifier::external_type_specification]
#[verifier::external_body]
pub struct ExImageError(image::ImageError);

/// What the encoder of the `image` crate makes of an image of `width` by
/// `height` pixels of red, green, blue and alpha, in the format `kind`: the
/// file that it writes, or nothing where it reports an error.
pub uninterp spec fn encoded(kind: Output, pixels: Seq<u8>, width: u32, height: u32) -> Option<
    Seq<u8>,
>;

/// Calls `image::write_buffer_with_format` with a buffer in memory as the
/// writer and with the colour type of eight bits for each of red, green, blue
/// and alpha. The encoders panic unless the pixels are as many as the width
/// and the height say. What is claimed: the outcome depends on the arguments
/// and on nothing else, both whether the call succeeds and, where it does,
/// the file that the buffer then holds. Nothing is claimed of which arguments
/// succeed.
#[verifier::external_body]
fn write_image(kind: Output, pixels: &Vec<u8>, width: u32, height: u32) -> (result: Result<
    Vec<u8>,
    image::ImageError,
>)
    requires
        pixels@.len() == BYTES_PER_PIXEL * width * height,
    ensures
        match result {
            Ok(file) => encoded(kind, pixels@, width, height) == Some(file@),
            Err(_) => encoded(kind, pixels@, width, height) is None,
        },
{
    let format = match kind {
        Output::Png => image::ImageFormat::Png,
        Output::WebP => image::ImageFormat::WebP,
    };
    let mut file = Vec::new();
    let mut writer = std::io::Cursor::new(&mut file);
    let color = image::ColorType::Rgba8;
    image::write_buffer_with_format(&mut writer, pixels, width, height, color, format)?;
    Ok(file)
}

/// What has become of an attempt to encode: the file, or the error of this
/// library that stands for any failure of the encoder.
pub fn file_or_error(outcome: Result<Vec<u8>, image::ImageError>) -> (result: Result<
    Vec<u8>,
    OutputError,
>)
    ensures
        match outcome {
            Ok(file) => result == Ok::<Vec<u8>, OutputError>(file),
            Err(_) => result == Err::<Vec<u8>, OutputError>(OutputError::Encoding),
        },
{
    match outcome {
        Ok(file) => Ok(file),
        Err(_) => Err(OutputError::Encoding),
    }
}

impl RowLayout {
    /// What `image_file` makes of a buffer: an error for a buffer that ends
    /// before the last row does, else what the encoder makes of the pixels.
    pub open spec fn file_of(&self, kind: Output, data: Seq<u8>) -> Result<Seq<u8>, OutputError> {
        if !self.covers(data.len()) {
            Err(OutputError::Truncated)
        } else {
            match encoded(kind, self.unpadded(data), self.spec_width(), self.spec_height()) {
                Some(file) => Ok(file),
                None => Err(OutputError::Encoding),
            }
        }
    }

    /// Turns a buffer that was laid out like this into the file of an image:
    /// strips the padding from the rows and encodes the pixels in the format
    /// `kind`.
    ///
    /// A buffer that ends before the last row does is rejected as truncated.
    /// Of any other buffer the result is the file that the encoder writes for
    /// its pixels, or the error that stands for the encoder's.
    pub fn image_file(&self, kind: Output, data: &Vec<u8>) -> (result: Result<Vec<u8>, OutputError>)
        ensures
            match self.file_of(kind, data@) {
                Ok(file) => result is Ok && result.unwrap()@ == file,
                Err(error) => result == Err::<Vec<u8>, OutputError>(error),
            },
    {
        let pixels = match self.strip_padding(data) {
            Some(pixels) => pixels,
            None => {
                return Err(OutputError::Truncated);
            },
        };
        assert(pixels@.len() == BYTES_PER_PIXEL * self.spec_width() * self.spec_height())
            by (nonlinear_arith)
            requires
                pixels@.len() == self.spec_height() * (BYTES_PER_PIXEL * self.spec_width()),
        ;
        file_or_error(write_image(kind, &pixels, self.width, self.height))
    }
}

} // verus!
