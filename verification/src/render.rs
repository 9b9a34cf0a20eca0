//! The image pipeline: from the payload of a rich result to a raster image,
//! the size at which it fits the terminal, and the options it is painted
//! with. Painting itself is left to the caller.

use base64::Engine;
use vstd::prelude::*;
use crate::execution::ExecutionError;
use crate::kernel::{
    append_visible_text, chosen_image, payload_of, report_text, KernelEvent, MimeBundle,
    MimeEntry,
};
use crate::text::{string_of, texts};

verus! {

/// `base64::DecodeError`, the error of the transport decoder, as an opaque
/// value.
#[verifier::external_type_specification]
#[verifier::external_body]
pub struct ExTransportError(base64::DecodeError);

/// `image::ImageError`, the error of the image decoder, as an opaque value.
#[verifier::external_type_specification]
#[verifier::external_body]
pub struct ExImageError(image::ImageError);

/// The rows that an image may take up in the terminal.
pub const MAX_ROWS: u32 = 50;

/// A width and a height.
#[derive(Clone, Copy, Debug, PartialEq, Eq, Structural)]
pub struct Dimensions {
    pub width: u32,
    pub height: u32,
}

/// A decoded image: `height` rows of `width` pixels, four bytes a pixel (red,
/// green, blue, alpha), row after row.
#[derive(Debug, PartialEq, Eq)]
pub struct RasterImage {
    pub width: u32,
    pub height: u32,
    pub pixels: Vec<u8>,
}

/// The number of bytes that the pixels of an image of this size take.
pub open spec fn pixel_bytes(width: u32, height: u32) -> int {
    4 * (width as int) * (height as int)
}

impl RasterImage {
    /// The image holds as many bytes as its size asks for.
    pub open spec fn well_formed(&self) -> bool {
        self.pixels@.len() == pixel_bytes(self.width, self.height)
    }

    /// The size of the image.
    pub fn dimensions(&self) -> (size: Dimensions)
        ensures
            size == (Dimensions { width: self.width, height: self.height }),
    {
        Dimensions { width: self.width, height: self.height }
    }
}

/// The bytes that a text stands for in standard base64 with padding, or
/// nothing where the text is no such encoding.
pub uninterp spec fn base64_decoded(text: Seq<char>) -> Option<Seq<u8>>;

/// The width and the height of the image that a sequence of bytes encodes,
/// or nothing where the decoder finds no image in them.
pub uninterp spec fn image_size(bytes: Seq<u8>) -> Option<(u32, u32)>;

/// `Engine::decode` of `base64::engine::general_purpose::STANDARD`: the bytes
/// that `text` encodes, or the decoder's error.
#[verifier::external_body]
pub(crate) fn decode_base64(text: &str) -> (decoded: Result<Vec<u8>, base64::DecodeError>)
    ensures
        match decoded {
            Ok(bytes) => base64_decoded(text@) == Some(bytes@),
            Err(_) => base64_decoded(text@) is None,
        },
{
    base64::engine::general_purpose::STANDARD.decode(text)
}

/// `image::load_from_memory`, the image then taken as RGBA: its width, its
/// height and its buffer, or the decoder's error. The width and the height
/// are those of the encoded image, and the buffer holds at least the bytes of
/// that many pixels; nothing is said of what a pixel holds.
#[verifier::external_body]
pub(crate) fn load_image(bytes: &Vec<u8>) -> (decoded: Result<
    (u32, u32, Vec<u8>),
    image::ImageError,
>)
    ensures
        match decoded {
            Ok((width, height, pixels)) => image_size(bytes@) == Some((width, height))
                && pixels@.len() >= pixel_bytes(width, height),
            Err(_) => image_size(bytes@) is None,
        },
{
    match image::load_from_memory(bytes) {
        Ok(image) => {
            let rgba = image.to_rgba8();
            Ok((rgba.width(), rgba.height(), rgba.into_raw()))
        },
        Err(e) => Err(e),
    }
}

/// The raster image of the given size from a buffer that holds at least the
/// bytes of its pixels: what the buffer holds beyond them is dropped. A
/// buffer that holds fewer bytes is an error.
pub fn raster_from_parts(width: u32, height: u32, pixels: Vec<u8>) -> (image: Result<
    RasterImage,
    ExecutionError,
>)
    ensures
        match image {
            Ok(raster) => {
                &&& pixels@.len() >= pixel_bytes(width, height)
                &&& raster.width == width
                &&& raster.height == height
                &&& raster.pixels@ == pixels@.take(pixel_bytes(width, height))
                &&& raster.well_formed()
            },
            Err(e) => e == ExecutionError::DecodeError && pixels@.len() < pixel_bytes(
                width,
                height,
            ),
        },
{
    proof {
        assert(0 <= 4u128 * (width as u128) * (height as u128) <= 4 * 0xFFFF_FFFF * 0xFFFF_FFFF)
            by (nonlinear_arith)
            requires
                width <= 0xFFFF_FFFF,
                height <= 0xFFFF_FFFF,
        ;
    }
    let expected: u128 = 4u128 * (width as u128) * (height as u128);
    if pixels.len() as u128 >= expected {
        let mut pixels = pixels;
        pixels.truncate(expected as usize);
        Ok(RasterImage { width, height, pixels })
    } else {
        Err(ExecutionError::DecodeError)
    }
}

/// The size of the image behind the payload of an image entry: the size of
/// the image that its base64 text encodes, or nothing where a step of the
/// decoding fails.
pub open spec fn payload_size(payload: Seq<char>) -> Option<(u32, u32)> {
    match base64_decoded(payload) {
        None => None,
        Some(bytes) => image_size(bytes),
    }
}

/// Decodes the payload of an image entry, first from its transport encoding
/// and then from its image format. A failure of either step is an error.
pub fn decode_image(payload: &str) -> (image: Result<RasterImage, ExecutionError>)
    ensures
        match image {
            Ok(raster) => payload_size(payload@) == Some((raster.width, raster.height))
                && raster.well_formed(),
            Err(e) => e == ExecutionError::DecodeError && payload_size(payload@) is None,
        },
{
    match decode_base64(payload) {
        Err(_) => Err(ExecutionError::DecodeError),
        Ok(bytes) => match load_image(&bytes) {
            Err(_) => Err(ExecutionError::DecodeError),
            Ok((width, height, pixels)) => raster_from_parts(width, height, pixels),
        },
    }
}

/// The size at which an image of size `size` is shown where it may take up
/// `max_height` rows: its own size if it is not taller, else `max_height`
/// rows and a width in the same proportion, rounded down.
pub open spec fn fitted(size: Dimensions, max_height: u32) -> Dimensions {
    if size.height <= max_height {
        size
    } else {
        Dimensions {
            width: ((size.width as int * max_height as int) / (size.height as int)) as u32,
            height: max_height,
        }
    }
}

/// The size at which an image is shown where it may take up `max_height`
/// rows. The result is never taller than `max_height`, and a taller image
/// keeps its proportion but for the rounding of the width.
pub fn rescale(size: Dimensions, max_height: u32) -> (shown: Dimensions)
    ensures
        shown == fitted(size, max_height),
        size.height <= max_height ==> shown == size,
        size.height > max_height ==> {
            &&& shown.height == max_height
            &&& shown.width <= size.width
            &&& shown.width * size.height <= size.width * shown.height
            &&& size.width * shown.height < (shown.width + 1) * size.height
        },
{
    if size.height <= max_height {
        size
    } else {
        proof {
            assert(0 <= (size.width as u64) * (max_height as u64) <= 0xFFFF_FFFF * 0xFFFF_FFFF)
                by (nonlinear_arith)
                requires
                    size.width <= 0xFFFF_FFFF,
                    max_height <= 0xFFFF_FFFF,
            ;
            lemma_proportion(size.width as int, size.height as int, max_height as int);
        }
        let product: u64 = (size.width as u64) * (max_height as u64);
        let width: u64 = product / (size.height as u64);
        Dimensions { width: width as u32, height: max_height }
    }
}

/// The quotient `width * max / height`, for `max < height`, is at most
/// `width` and keeps the proportion down to the rounding.
pub proof fn lemma_proportion(width: int, height: int, max: int)
    requires
        0 <= width,
        0 <= max < height,
    ensures
        0 <= (width * max) / height <= width,
        ((width * max) / height) * height <= width * max,
        width * max < ((width * max) / height + 1) * height,
{
    let product = width * max;
    let quotient = product / height;
    assert(0 <= product) by (nonlinear_arith)
        requires
            product == width * max,
            0 <= width,
            0 <= max,
    ;
    assert(product <= width * height) by (nonlinear_arith)
        requires
            product == width * max,
            0 <= width,
            0 <= max < height,
    ;
    vstd::arithmetic::div_mod::lemma_fundamental_div_mod(product, height);
    vstd::arithmetic::div_mod::lemma_mod_bound(product, height);
    assert(height * quotient == quotient * height) by (nonlinear_arith);
    assert((quotient + 1) * height == quotient * height + height) by (nonlinear_arith);
    assert(0 <= quotient) by (nonlinear_arith)
        requires
            0 <= product,
            0 < height,
            product < (quotient + 1) * height,
    ;
    assert(quotient <= width) by (nonlinear_arith)
        requires
            quotient * height <= product,
            product <= width * height,
            0 < height,
            0 <= width,
    ;
}

/// How an image is painted.
#[derive(Clone, Copy, Debug, PartialEq, Eq, Structural)]
pub struct PaintOptions {
    /// Whether transparent pixels stay transparent.
    pub transparent: bool,
    /// Whether the offset counts from the terminal's corner and not from the
    /// cursor.
    pub absolute_offset: bool,
    /// The offset to the right.
    pub x: u16,
    /// The offset downwards.
    pub y: i16,
    /// Whether the cursor goes back to where it was.
    pub restore_cursor: bool,
    /// The width to paint at.
    pub width: Option<u32>,
    /// The height to paint at.
    pub height: Option<u32>,
    /// Whether true colour is used.
    pub truecolor: bool,
    /// Whether the Kitty protocol is used where the terminal has it.
    pub use_kitty: bool,
    /// Whether the iTerm protocol is used where the terminal has it.
    pub use_iterm: bool,
    /// Whether the alpha channel counts as premultiplied.
    pub premultiplied_alpha: bool,
}

/// The options that an image of size `size` is painted with: at the size
/// that fits `MAX_ROWS` rows, at the cursor, without transparency and
/// without true colour, through an inline image protocol where the terminal
/// has one.
pub open spec fn options_for(size: Dimensions) -> PaintOptions {
    PaintOptions {
        transparent: false,
        absolute_offset: false,
        x: 0,
        y: 0,
        restore_cursor: false,
        width: Some(fitted(size, MAX_ROWS).width),
        height: Some(fitted(size, MAX_ROWS).height),
        truecolor: false,
        use_kitty: true,
        use_iterm: true,
        premultiplied_alpha: false,
    }
}

/// The options that an image of size `size` is painted with.
pub fn paint_options(size: Dimensions) -> (options: PaintOptions)
    ensures
        options == options_for(size),
{
    let shown = rescale(size, MAX_ROWS);
    PaintOptions {
        transparent: false,
        absolute_offset: false,
        x: 0,
        y: 0,
        restore_cursor: false,
        width: Some(shown.width),
        height: Some(shown.height),
        truecolor: false,
        use_kitty: true,
        use_iterm: true,
        premultiplied_alpha: false,
    }
}

/// What is to be done on the terminal for an event.
#[derive(Debug, PartialEq, Eq)]
pub enum RenderPlan {
    /// Paint the image with the options.
    Paint { image: RasterImage, options: PaintOptions },
    /// Show the text.
    Show(String),
    /// Clear what was shown before.
    Clear,
    /// Nothing.
    Nothing,
}

/// A render plan over plain values: of an image its size, of a text its
/// characters.
pub enum PlanView {
    Paint { width: u32, height: u32, options: PaintOptions },
    Show(Seq<char>),
    Clear,
    Nothing,
}

impl View for RenderPlan {
    type V = PlanView;

    open spec fn view(&self) -> PlanView {
        match *self {
            RenderPlan::Paint { image, options } => PlanView::Paint {
                width: image.width,
                height: image.height,
                options,
            },
            RenderPlan::Show(text) => PlanView::Show(text@),
            RenderPlan::Clear => PlanView::Clear,
            RenderPlan::Nothing => PlanView::Nothing,
        }
    }
}

/// The plan for a rich result. Where it holds an image, the image is decoded
/// and painted, and a payload that does not decode is an error: the plan
/// does not fall back to text then. Where it holds no image, its
/// `text/plain` body is shown if it has one.
pub open spec fn rich_plan(entries: Seq<MimeEntry>) -> Result<PlanView, ExecutionError> {
    match chosen_image(entries) {
        Some(at) => match payload_size(entries[at].1) {
            Some((width, height)) => Ok(
                PlanView::Paint {
                    width,
                    height,
                    options: options_for(Dimensions { width, height }),
                },
            ),
            None => Err(ExecutionError::DecodeError),
        },
        None => match payload_of(entries, "text/plain"@) {
            Some(body) => Ok(PlanView::Show(body)),
            None => Ok(PlanView::Nothing),
        },
    }
}

/// The plan for an event: a rich result is painted or shown, written text
/// is shown, an error is shown with its traceback, a request to clear is
/// passed on, and nothing is done for an echo of the input or for a status.
pub open spec fn plan_for(event: KernelEvent) -> Result<PlanView, ExecutionError> {
    match event {
        KernelEvent::DisplayData { data, .. } => rich_plan(data@),
        KernelEvent::ExecuteResult { data, .. } => rich_plan(data@),
        KernelEvent::Stream { text, .. } => Ok(PlanView::Show(text@)),
        KernelEvent::Error { message, traceback, .. } => Ok(
            PlanView::Show(report_text(message@, texts(traceback@))),
        ),
        KernelEvent::ClearOutput { .. } => Ok(PlanView::Clear),
        _ => Ok(PlanView::Nothing),
    }
}

/// The plan for a rich result. An image that is painted holds as many
/// bytes as its size asks for.
pub fn plan_rich(data: &MimeBundle) -> (plan: Result<RenderPlan, ExecutionError>)
    ensures
        match plan {
            Ok(p) => rich_plan(data@) == Ok::<PlanView, ExecutionError>(p@),
            Err(e) => rich_plan(data@) == Err::<PlanView, ExecutionError>(e),
        },
        plan matches Ok(RenderPlan::Paint { image, .. }) ==> image.well_formed(),
{
    match data.image_position() {
        Some(at) => match decode_image(data.body_at(at).as_str()) {
            Ok(image) => {
                let options = paint_options(image.dimensions());
                Ok(RenderPlan::Paint { image, options })
            },
            Err(e) => Err(e),
        },
        None => {
            let plain = "text/plain".to_owned();
            match data.get(&plain) {
                Some(body) => Ok(RenderPlan::Show(body.clone())),
                None => Ok(RenderPlan::Nothing),
            }
        },
    }
}

/// The plan for an event. An image that is painted holds as many bytes as
/// its size asks for.
pub fn render_plan(event: &KernelEvent) -> (plan: Result<RenderPlan, ExecutionError>)
    ensures
        match plan {
            Ok(p) => plan_for(*event) == Ok::<PlanView, ExecutionError>(p@),
            Err(e) => plan_for(*event) == Err::<PlanView, ExecutionError>(e),
        },
        plan matches Ok(RenderPlan::Paint { image, .. }) ==> image.well_formed(),
{
    match event {
        KernelEvent::DisplayData { data, .. } => plan_rich(data),
        KernelEvent::ExecuteResult { data, .. } => plan_rich(data),
        KernelEvent::Stream { text, .. } => Ok(RenderPlan::Show(text.clone())),
        KernelEvent::Error { .. } => {
            let mut text: Vec<char> = Vec::new();
            append_visible_text(&mut text, event);
            assert(text@ =~= crate::kernel::visible_text(*event));
            Ok(RenderPlan::Show(string_of(&text)))
        },
        KernelEvent::ClearOutput { .. } => Ok(RenderPlan::Clear),
        _ => Ok(RenderPlan::Nothing),
    }
}

/// What is shown for a rich result whose image the terminal cannot paint:
/// its `text/plain` body where it has one.
pub open spec fn text_plan(entries: Seq<MimeEntry>) -> PlanView {
    match payload_of(entries, "text/plain"@) {
        Some(body) => PlanView::Show(body),
        None => PlanView::Nothing,
    }
}

/// The plan to fall back on where the terminal cannot paint: a rich result
/// degrades to its text, and nothing is done for any other event.
pub open spec fn fallback_for(event: KernelEvent) -> PlanView {
    match event {
        KernelEvent::DisplayData { data, .. } => text_plan(data@),
        KernelEvent::ExecuteResult { data, .. } => text_plan(data@),
        _ => PlanView::Nothing,
    }
}

/// The plan to fall back on where the terminal cannot paint.
pub fn fallback_plan(event: &KernelEvent) -> (plan: RenderPlan)
    ensures
        plan@ == fallback_for(*event),
{
    let plain = "text/plain".to_owned();
    let body = match event {
        KernelEvent::DisplayData { data, .. } => data.get(&plain),
        KernelEvent::ExecuteResult { data, .. } => data.get(&plain),
        _ => None,
    };
    match body {
        Some(text) => RenderPlan::Show(text.clone()),
        None => RenderPlan::Nothing,
    }
}

} // verus!
