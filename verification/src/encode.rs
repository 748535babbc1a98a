//! Encoding a cover image for the terminal.

use crate::screen::Size;
use ratatui_image::picker::ProtocolType as TermProtocol;
use vstd::prelude::*;

verus! {

/// `ratatui_image`'s choice of graphics protocol and font size.
#[verifier::external_type_specification]
#[verifier::external_body]
pub struct ExPicker(ratatui_image::picker::Picker);

/// `ratatui_image`'s encoded image, of which single rows can be shown.
#[verifier::external_type_specification]
#[verifier::external_body]
pub struct ExSlicedProtocol(ratatui_image::sliced::SlicedProtocol);

/// `ratatui_image`'s error.
#[verifier::external_type_specification]
#[verifier::external_body]
pub struct ExErrors(ratatui_image::errors::Errors);

/// `image`'s image of any pixel format.
#[verifier::external_type_specification]
#[verifier::external_body]
pub struct ExDynamicImage(image::DynamicImage);

/// A way of showing images in a terminal.
#[derive(Clone, Copy, Debug, PartialEq, Eq, Structural)]
pub enum ProtocolType {
    Halfblocks,
    Sixel,
    Kitty,
    Iterm2,
}

/// The width and height of a cell in pixels.
#[derive(Clone, Copy, Debug, PartialEq, Eq, Structural)]
pub struct FontSize {
    pub width: u16,
    pub height: u16,
}

/// Everything an encoded cover depends on. Covers encoded for another key are unusable.
#[derive(Clone, Copy, Debug, PartialEq, Eq, Structural)]
pub struct CellKey {
    pub size: Size,
    pub font_size: FontSize,
    pub protocol: ProtocolType,
}

/// A cover to be encoded.
pub struct Job {
    pub generation: u64,
    pub url: String,
    pub key: CellKey,
    pub picker: ratatui_image::picker::Picker,
    pub kitty_id: u32,
}

/// Why a cover could not be encoded.
pub enum EncodeError {
    /// Encoding for the Kitty protocol failed.
    KittyCover(ratatui_image::errors::Errors),
    /// Encoding for another protocol failed.
    Cover(ratatui_image::errors::Errors),
}

/// What became of a job.
pub struct Encoded {
    pub generation: u64,
    pub url: String,
    pub kitty_id: u32,
    /// The encoded cover and its size in memory; `None` if there was no image to encode.
    pub result: Result<Option<(Cover, usize)>, EncodeError>,
}

/// An image that is encoded for the terminal, of which single rows can be shown. It is made by
/// `encode_kitty` and `encode_sliced` alone and cannot be copied, so that what it keeps of having been
/// drawn is its own.
pub struct EncodedImage {
    pub(crate) proto: ratatui_image::sliced::SlicedProtocol,
}

/// An encoded image that has not been drawn yet.
pub struct Cover {
    image: EncodedImage,
}

impl Cover {
    /// The encoded image.
    pub closed spec fn image(&self) -> EncodedImage {
        self.image
    }

    /// Nothing that transmits the image was handed out yet.
    #[verifier::type_invariant]
    spec fn undrawn(&self) -> bool {
        is_kitty(self.image) ==> !transmitted(self.image)
    }

    /// The encoded image.
    pub(crate) fn into_image(self) -> (r: EncodedImage)
        ensures
            r == self.image(),
            is_kitty(r) ==> !transmitted(r),
    {
        proof {
            use_type_invariant(&self);
        }
        self.image
    }

    /// The protocol that the image is encoded for.
    pub fn protocol(&self) -> (r: ProtocolType)
        ensures
            r == shown_by(self.image()),
    {
        protocol_of_shown(&self.image)
    }

    /// The size of the encoded image in cells.
    pub fn size(&self) -> (r: Size)
        ensures
            r == shown_size(self.image()),
    {
        size_of_shown(&self.image)
    }
}

/// The protocol that a picker chooses.
pub uninterp spec fn picker_protocol(p: ratatui_image::picker::Picker) -> ProtocolType;

/// The size of a cell that a picker goes by.
pub uninterp spec fn picker_font(p: ratatui_image::picker::Picker) -> FontSize;

/// The width and height of an image in pixels.
pub uninterp spec fn image_size(img: image::DynamicImage) -> (u32, u32);

/// An image stretched to the given width and height.
pub uninterp spec fn stretched(img: image::DynamicImage, width: u32, height: u32) -> image::DynamicImage;

/// The image that an encoded image was encoded from.
pub uninterp spec fn shown_image(p: EncodedImage) -> image::DynamicImage;

/// The size of an encoded image in cells.
pub uninterp spec fn shown_size(p: EncodedImage) -> Size;

/// The protocol that an image is encoded for.
pub uninterp spec fn shown_by(p: EncodedImage) -> ProtocolType;

/// Whether an image is encoded for the Kitty protocol.
pub open spec fn is_kitty(p: EncodedImage) -> bool {
    shown_by(p) == ProtocolType::Kitty
}

/// The number by which the terminal knows an image that is encoded for the Kitty protocol, and
/// whether its commands are wrapped for tmux.
pub uninterp spec fn kitty_name(p: EncodedImage) -> (u32, bool);

/// The commands that transmit an image that is encoded for the Kitty protocol.
pub uninterp spec fn transmission(p: EncodedImage) -> Seq<char>;

/// Whether an image that is encoded for the Kitty protocol has handed out the commands that
/// transmit it, which it does the first time that it is drawn.
pub uninterp spec fn transmitted(p: EncodedImage) -> bool;

/// The commands that transmit an image to the terminal under a number, wrapped for tmux or not.
pub uninterp spec fn transmission_of(img: image::DynamicImage, id: u32, tmux: bool) -> Seq<char>;

/// Whether an image can be encoded for the picker's protocol, in the given size.
pub uninterp spec fn slices(
    picker: ratatui_image::picker::Picker,
    img: image::DynamicImage,
    size: Size,
) -> bool;

/// `Picker::protocol_type`.
#[verifier::external_body]
pub(crate) fn protocol_of(picker: &ratatui_image::picker::Picker) -> (r: ProtocolType)
    ensures
        r == picker_protocol(*picker),
{
    match picker.protocol_type() {
        TermProtocol::Halfblocks => ProtocolType::Halfblocks,
        TermProtocol::Sixel => ProtocolType::Sixel,
        TermProtocol::Kitty => ProtocolType::Kitty,
        TermProtocol::Iterm2 => ProtocolType::Iterm2,
    }
}

/// `Picker::font_size`.
#[verifier::external_body]
pub(crate) fn font_of(picker: &ratatui_image::picker::Picker) -> (r: FontSize)
    ensures
        r == picker_font(*picker),
{
    let font = picker.font_size();
    FontSize { width: font.width, height: font.height }
}

/// `Clone` of `Picker`, which copies every field.
#[verifier::external_body]
pub(crate) fn clone_picker(picker: &ratatui_image::picker::Picker) -> (
    r: ratatui_image::picker::Picker)
    ensures
        r == *picker,
{
    picker.clone()
}

/// `DynamicImage::width` and `DynamicImage::height`.
#[verifier::external_body]
pub(crate) fn size_of_image(img: &image::DynamicImage) -> (r: (u32, u32))
    ensures
        r == image_size(*img),
{
    (img.width(), img.height())
}

/// The largest width and height for which pixels are counted in single precision with an error well
/// below half a pixel.
pub const MAX_STRETCH: u32 = 0x20_0000;

/// Whether an image of `img` pixels can be stretched to `to` pixels.
pub open spec fn stretchable(img: (u32, u32), to: (u32, u32)) -> bool {
    &&& img.0 <= MAX_STRETCH && img.1 <= MAX_STRETCH && to.0 <= MAX_STRETCH && to.1 <= MAX_STRETCH
    &&& 16 * (to.0 * to.1) <= isize::MAX
    &&& 16 * (img.0 * to.1) <= isize::MAX
}

/// `DynamicImage::resize_exact` with the triangle filter: the result has the width and height
/// that are asked for. It works on a picture as wide as the image and as high as the result, with
/// sixteen bytes to a pixel, and finds the place of a pixel in single precision.
#[verifier::external_body]
pub(crate) fn stretch(img: &image::DynamicImage, width: u32, height: u32) -> (
    r: image::DynamicImage)
    requires
        stretchable(image_size(*img), (width, height)),
    ensures
        r == stretched(*img, width, height),
        image_size(r) == (width, height),
{
    img.resize_exact(width, height, image::imageops::FilterType::Triangle)
}

/// `Kitty::new` and the variant of `SlicedProtocol` for it. It does not fail, keeps the size and
/// the number that it is given, and prepares the commands that transmit the image, which are not
/// handed out yet.
#[verifier::external_body]
pub(crate) fn encode_kitty(img: image::DynamicImage, size: Size, id: u32, tmux: bool) -> (r: Result<
    EncodedImage,
    ratatui_image::errors::Errors,
>)
    requires
        16 * (image_size(img).0 * image_size(img).1) <= isize::MAX,
    ensures
        r is Ok,
        r matches Ok(p) ==> shown_by(p) == ProtocolType::Kitty && shown_image(p) == img
            && shown_size(p) == size && kitty_name(p) == (id, tmux),
        r matches Ok(p) ==> transmission(p) == transmission_of(img, id, tmux) && !transmitted(p),
{
    let size = ratatui::layout::Size::new(size.width, size.height);
    let kitty = ratatui_image::protocol::kitty::Kitty::new(img, size, id, tmux)?;
    Ok(EncodedImage { proto: ratatui_image::sliced::SlicedProtocol::Kitty(kitty) })
}

/// Whether images can always be encoded for the protocol.
pub open spec fn always_encodes(protocol: ProtocolType) -> bool {
    protocol == ProtocolType::Halfblocks || protocol == ProtocolType::Kitty
}

/// Whether an image of `img` pixels fills `size` cells of the given size exactly.
pub open spec fn fills(font: FontSize, img: (u32, u32), size: Size) -> bool {
    img.0 == size.width * font.width && img.1 == size.height * font.height
}

/// Whether `SlicedProtocol::new_with_resize` stays clear of overflow and of division by zero for
/// these arguments. iTerm2 needs rows and columns. Halfblocks and the Kitty protocol do without where
/// the image fills the cells, and halfblocks count their cells in sixteen bits.
pub open spec fn sliceable(protocol: ProtocolType, font: FontSize, img: (u32, u32), size: Size) -> bool {
    let shows = size.width >= 1 && size.height >= 1 && img.0 >= 1 && img.1 >= 1;
    &&& font.width >= 1 && font.height >= 1
    &&& size.width * font.width <= u16::MAX && size.height * font.height <= u16::MAX
    &&& protocol == ProtocolType::Iterm2 ==> shows
    &&& always_encodes(protocol) ==> shows || fills(font, img, size)
    &&& protocol == ProtocolType::Halfblocks ==> size.width * size.height <= u16::MAX && 2
        * size.height <= u16::MAX
}

/// `size` with at least one row and one column.
pub open spec fn at_least_a_cell(size: Size) -> Size {
    Size {
        width: if size.width == 0 {
            1
        } else {
            size.width
        },
        height: if size.height == 0 {
            1
        } else {
            size.height
        },
    }
}

/// The size in cells of an image that fills `size` cells, when it is encoded for `protocol`. Sixel
/// shows a cell at least.
pub open spec fn filled_size(protocol: ProtocolType, size: Size) -> Size {
    if protocol == ProtocolType::Sixel {
        at_least_a_cell(size)
    } else {
        size
    }
}

/// `SlicedProtocol::new_with_resize` with `Resize::Fit(None)`: the result is of the picker's
/// protocol, has not been drawn, and keeps the size of an image that fills `size` exactly, but that
/// Sixel makes a cell at least of it. Whether it succeeds depends on the arguments alone, and it does
/// for halfblocks and for the Kitty protocol.
#[verifier::external_body]
pub(crate) fn encode_sliced(
    picker: &ratatui_image::picker::Picker,
    img: image::DynamicImage,
    size: Size,
) -> (r: Result<EncodedImage, ratatui_image::errors::Errors>)
    requires
        sliceable(picker_protocol(*picker), picker_font(*picker), image_size(img), size),
    ensures
        r is Ok <==> slices(*picker, img, size),
        always_encodes(picker_protocol(*picker)) ==> r is Ok,
        r matches Ok(p) ==> shown_by(p) == picker_protocol(*picker) && shown_image(p) == img,
        r matches Ok(p) ==> is_kitty(p) ==> !transmitted(p),
        r matches Ok(p) ==> fills(picker_font(*picker), image_size(img), size) ==> shown_size(p)
            == filled_size(picker_protocol(*picker), size),
{
    let size = ratatui::layout::Size::new(size.width, size.height);
    let fit = ratatui_image::Resize::Fit(None);
    let proto = ratatui_image::sliced::SlicedProtocol::new_with_resize(picker, img, size, fit)?;
    Ok(EncodedImage { proto })
}

/// `SlicedProtocol::size`.
#[verifier::external_body]
pub(crate) fn size_of_shown(p: &EncodedImage) -> (r: Size)
    ensures
        r == shown_size(*p),
{
    let size = p.proto.size();
    Size { width: size.width, height: size.height }
}

/// Which of its variants a `SlicedProtocol` is. The one for slices is that of iTerm2.
#[verifier::external_body]
pub(crate) fn protocol_of_shown(p: &EncodedImage) -> (r: ProtocolType)
    ensures
        r == shown_by(*p),
{
    match &p.proto {
        ratatui_image::sliced::SlicedProtocol::Halfblocks(_) => ProtocolType::Halfblocks,
        ratatui_image::sliced::SlicedProtocol::Sixel(_) => ProtocolType::Sixel,
        ratatui_image::sliced::SlicedProtocol::Kitty(_) => ProtocolType::Kitty,
        ratatui_image::sliced::SlicedProtocol::Sliced(_) => ProtocolType::Iterm2,
    }
}

/// The width and height in pixels of the cells that a cover fills.
pub open spec fn cover_pixels(key: CellKey) -> (u32, u32) {
    (
        (key.size.width * key.font_size.width) as u32,
        (key.size.height * key.font_size.height) as u32,
    )
}

/// The number of bytes of a cover's pixels, at four bytes to a pixel.
pub open spec fn rgba_bytes(key: CellKey) -> int {
    cover_pixels(key).0 * cover_pixels(key).1 * 4
}

/// The approximate size in memory of an encoded cover. The Kitty protocol keeps the commands that
/// transmit it, which hold the pixels in base64.
pub open spec fn cover_bytes(key: CellKey) -> int {
    if key.protocol == ProtocolType::Kitty {
        rgba_bytes(key) / 3 * 4
    } else {
        rgba_bytes(key)
    }
}

/// Whether an image can be encoded for `key` with the means of the machine, where a picker chooses
/// `protocol` and goes by `font`.
pub open spec fn encodable(
    key: CellKey,
    protocol: ProtocolType,
    font: FontSize,
    img: (u32, u32),
) -> bool {
    let (width, height) = cover_pixels(key);
    &&& stretchable(img, (width, height))
    &&& key.protocol != ProtocolType::Kitty ==> sliceable(protocol, font, (width, height), key.size)
}

/// Whether the image can be encoded for the job with the means of the machine.
pub open spec fn job_encodable(job: Job, img: image::DynamicImage) -> bool {
    encodable(job.key, picker_protocol(job.picker), picker_font(job.picker), image_size(img))
}

/// Whether the image can be encoded for the job with the means of the machine.
pub fn is_encodable(job: &Job, img: &image::DynamicImage) -> (r: bool)
    ensures
        r == job_encodable(*job, *img),
{
    let key = job.key;
    let font = font_of(&job.picker);
    let (w, h): (u16, u16) = (key.size.width, key.size.height);
    proof {
        lemma_u16_product(w, key.font_size.width);
        lemma_u16_product(h, key.font_size.height);
        lemma_u16_product(w, font.width);
        lemma_u16_product(h, font.height);
        lemma_u16_product(w, h);
    }
    let width: u32 = w as u32 * key.font_size.width as u32;
    let height: u32 = h as u32 * key.font_size.height as u32;
    let (given, rows): (u32, u32) = size_of_image(img);
    proof {
        lemma_u32_product(width, height);
        lemma_u32_product(given, height);
    }
    let counted = given <= MAX_STRETCH && rows <= MAX_STRETCH && width <= MAX_STRETCH && height
        <= MAX_STRETCH;
    let fits = counted && 16 * (width as u128 * height as u128) <= isize::MAX as u128 && 16 * (
    given as u128 * height as u128) <= isize::MAX as u128;
    if key.protocol == ProtocolType::Kitty {
        fits
    } else {
        let across: u32 = w as u32 * font.width as u32;
        let down: u32 = h as u32 * font.height as u32;
        let filled = width == across && height == down;
        let shown = w >= 1 && h >= 1 && width >= 1 && height >= 1;
        fits && font.width >= 1 && font.height >= 1 && across <= 0xffff && down <= 0xffff
            && match protocol_of(&job.picker) {
            ProtocolType::Halfblocks => (shown || filled) && w as u32 * h as u32 <= 0xffff && 2 * (
            h as u32) <= 0xffff,
            ProtocolType::Kitty => shown || filled,
            ProtocolType::Iterm2 => shown,
            ProtocolType::Sixel => true,
        }
    }
}

proof fn lemma_u16_product(a: u16, b: u16)
    ensures
        0 <= a * b <= 0xffff * 0xffff,
{
    assert(0 <= a * b <= 0xffff * 0xffff) by (nonlinear_arith)
        requires
            0 <= a <= 0xffff,
            0 <= b <= 0xffff,
    ;
}

proof fn lemma_u32_product(a: u32, b: u32)
    ensures
        0 <= a * b <= 0xffff_ffff * 0xffff_ffff,
{
    assert(0 <= a * b <= 0xffff_ffff * 0xffff_ffff) by (nonlinear_arith)
        requires
            0 <= a <= 0xffff_ffff,
            0 <= b <= 0xffff_ffff,
    ;
}

/// Whether `done` is the image encoded for the job, with its approximate size in memory.
pub open spec fn encoded_for(
    job: Job,
    img: image::DynamicImage,
    tmux: bool,
    done: (Cover, usize),
) -> bool {
    let (width, height) = cover_pixels(job.key);
    let full = stretched(img, width, height);
    let p = done.0.image();
    &&& shown_image(p) == full && image_size(full) == (width, height)
    &&& done.1 == cover_bytes(job.key)
    &&& if job.key.protocol == ProtocolType::Kitty {
        &&& is_kitty(p) && shown_size(p) == job.key.size
        &&& kitty_name(p) == (job.kitty_id, tmux)
        &&& transmission(p) == transmission_of(full, job.kitty_id, tmux)
    } else {
        &&& shown_by(p) == picker_protocol(job.picker)
        &&& picker_font(job.picker) == job.key.font_size ==> shown_size(p) == filled_size(
            shown_by(p),
            job.key.size,
        )
    }
}

/// Whether the image is encoded for the job with success: always for the Kitty protocol, and for the
/// others where the image that fills the cells of the cover can be encoded.
pub open spec fn succeeds(job: Job, img: image::DynamicImage) -> bool {
    let (width, height) = cover_pixels(job.key);
    job.key.protocol == ProtocolType::Kitty || slices(
        job.picker,
        stretched(img, width, height),
        job.key.size,
    )
}

/// Whether `r` is what encoding the image for the job gives.
pub open spec fn encodes_to(
    job: Job,
    img: image::DynamicImage,
    tmux: bool,
    r: Result<(Cover, usize), EncodeError>,
) -> bool {
    &&& r is Ok <==> succeeds(job, img)
    &&& always_encodes(picker_protocol(job.picker)) ==> r is Ok
    &&& r matches Err(e) ==> e is Cover
    &&& r matches Ok(done) ==> encoded_for(job, img, tmux, done)
}

/// Stretches the image so that it fills the cells of the cover exactly, and encodes it for the
/// protocol of the job's key. Returns the encoded cover and its approximate size in memory.
pub fn encode(job: &Job, img: &image::DynamicImage, tmux: bool) -> (r: Result<
    (Cover, usize),
    EncodeError,
>)
    requires
        job_encodable(*job, *img),
    ensures
        encodes_to(*job, *img, tmux, r),
{
    let size = job.key.size;
    let font = job.key.font_size;
    proof {
        lemma_u16_product(size.width, font.width);
        lemma_u16_product(size.height, font.height);
    }
    let width: u32 = size.width as u32 * font.width as u32;
    let height: u32 = size.height as u32 * font.height as u32;
    let full = stretch(img, width, height);
    let pixels: usize = width as usize * height as usize;
    let bytes: usize = pixels * 4;
    if job.key.protocol == ProtocolType::Kitty {
        match encode_kitty(full, size, job.kitty_id, tmux) {
            // the commands that transmit the image hold its pixels in base64
            Ok(image) => Ok((Cover { image }, bytes / 3 * 4)),
            Err(e) => Err(EncodeError::KittyCover(e)),
        }
    } else {
        match encode_sliced(&job.picker, full, size) {
            Ok(image) => Ok((Cover { image }, bytes)),
            Err(e) => Err(EncodeError::Cover(e)),
        }
    }
}

/// Whether `r` is what became of the job, for the image that its URL has, if it has one.
pub open spec fn became(job: Job, img: Option<image::DynamicImage>, tmux: bool, r: Encoded) -> bool {
    &&& r.generation == job.generation && r.url@ == job.url@ && r.kitty_id == job.kitty_id
    &&& match img {
        None => r.result == Ok::<Option<(Cover, usize)>, EncodeError>(None),
        Some(img) => match r.result {
            Ok(Some(done)) => encodes_to(job, img, tmux, Ok(done)),
            Ok(None) => false,
            Err(e) => encodes_to(job, img, tmux, Err(e)),
        },
    }
}

impl Job {
    /// Whether the job was queued since the covers were last dropped.
    pub fn is_current(&self, generation: u64) -> (r: bool)
        ensures
            r == (self.generation == generation),
    {
        self.generation == generation
    }

    /// Does the job, for the image that its URL has now.
    pub fn run(self, img: Option<&image::DynamicImage>, tmux: bool) -> (r: Encoded)
        requires
            img matches Some(i) ==> job_encodable(self, *i),
        ensures
            became(
                self,
                match img {
                    Some(i) => Some(*i),
                    None => None,
                },
                tmux,
                r,
            ),
            r.generation == self.generation,
            r.url@ == self.url@,
            r.kitty_id == self.kitty_id,
            img is None <==> r.result == Ok::<
                Option<(Cover, usize)>,
                EncodeError,
            >(None),
            img matches Some(i) ==> (r.result is Ok <==> succeeds(self, *i)),
            always_encodes(picker_protocol(self.picker)) ==> r.result is Ok,
            r.result matches Err(e) ==> e is Cover,
            r.result matches Ok(Some(done)) ==> encoded_for(self, *img->0, tmux, done),
    {
        let result = match img {
            Some(i) => match encode(&self, i, tmux) {
                Ok(done) => Ok(Some(done)),
                Err(e) => Err(e),
            },
            None => Ok(None),
        };
        Encoded { generation: self.generation, url: self.url, kitty_id: self.kitty_id, result }
    }
}

} // verus!
