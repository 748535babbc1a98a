//! What holds of encoded covers.

use crate::encode::{
    became, encoded_for, image_size, job_encodable, kitty_name, picker_font, picker_protocol, shown_by,
    shown_image, shown_size, stretched, succeeds, transmission, transmission_of, Cover, Encoded, Job, ProtocolType,
};
use vstd::prelude::*;

verus! {

proof fn lemma_pixels(a: u16, b: u16)
    ensures
        0 <= a * b <= 0xfffe_0001,
{
    assert(0 <= a * b <= 0xfffe_0001) by (nonlinear_arith)
        requires
            0 <= a <= 0xffff,
            0 <= b <= 0xffff,
    ;
}

/// Whatever the protocol and the shape of a cell, the image of a cover is the given one, stretched to
/// as many pixels as the cells of the cover have: every column of cells is as wide as the font, every
/// row as high, and no padding is left.
pub proof fn a_cover_fills_its_cells(
    job: Job,
    img: image::DynamicImage,
    tmux: bool,
    done: (Cover, usize),
)
    requires
        encoded_for(job, img, tmux, done),
    ensures
        ({
            let p = done.0.image();
            let key = job.key;
            let (w, h) = image_size(shown_image(p));
            &&& w == key.size.width * key.font_size.width
            &&& h == key.size.height * key.font_size.height
            &&& shown_image(p) == stretched(img, w, h)
        }),
{
    lemma_pixels(job.key.size.width, job.key.font_size.width);
    lemma_pixels(job.key.size.height, job.key.font_size.height);
}

/// A cover that is one cell larger is larger by the pixels of that cell, in either direction.
pub proof fn a_larger_cover_has_more_pixels(
    job: Job,
    wider: Job,
    higher: Job,
    img: image::DynamicImage,
    tmux: bool,
    done: (Cover, usize),
    done_wider: (Cover, usize),
    done_higher: (Cover, usize),
)
    requires
        encoded_for(job, img, tmux, done),
        encoded_for(wider, img, tmux, done_wider),
        encoded_for(higher, img, tmux, done_higher),
        wider.key.font_size == job.key.font_size && higher.key.font_size == job.key.font_size,
        wider.key.size.width == job.key.size.width + 1,
        wider.key.size.height == job.key.size.height,
        higher.key.size.width == job.key.size.width,
        higher.key.size.height == job.key.size.height + 1,
    ensures
        ({
            let (w, h) = image_size(shown_image(done.0.image()));
            let (v, i) = image_size(shown_image(done_wider.0.image()));
            let (u, j) = image_size(shown_image(done_higher.0.image()));
            &&& v == w + job.key.font_size.width && i == h
            &&& u == w && j == h + job.key.font_size.height
        }),
{
    a_cover_fills_its_cells(job, img, tmux, done);
    a_cover_fills_its_cells(wider, img, tmux, done_wider);
    a_cover_fills_its_cells(higher, img, tmux, done_higher);
    let (a, b) = (job.key.size.width as int, job.key.font_size.width as int);
    let (c, d) = (job.key.size.height as int, job.key.font_size.height as int);
    assert((a + 1) * b == a * b + b) by (nonlinear_arith);
    assert((c + 1) * d == c * d + d) by (nonlinear_arith);
}

/// A cover is said to take the bytes of its pixels, four to each; for the Kitty protocol, which keeps
/// them in base64, four for each three of these.
pub proof fn a_cover_takes_the_bytes_of_its_pixels(
    job: Job,
    img: image::DynamicImage,
    tmux: bool,
    done: (Cover, usize),
)
    requires
        encoded_for(job, img, tmux, done),
    ensures
        ({
            let (w, h) = image_size(shown_image(done.0.image()));
            let bytes = 4 * (w * h);
            &&& job.key.protocol != ProtocolType::Kitty ==> done.1 == bytes
            &&& job.key.protocol == ProtocolType::Kitty ==> {
                &&& done.1 % 4 == 0
                &&& 3 * done.1 <= 4 * bytes < 3 * done.1 + 12
            }
        }),
{
    let (w, h) = image_size(shown_image(done.0.image()));
    let bytes = w * h * 4;
    assert(bytes == 4 * (w * h));
    assert(bytes / 3 * 4 % 4 == 0);
}

/// A cover is encoded for the protocol that was asked for. For the Kitty protocol it has the number of
/// the job, the size of the job's key, and the commands that transmit the stretched image under that
/// number.
pub proof fn a_cover_is_encoded_as_asked(
    job: Job,
    img: image::DynamicImage,
    tmux: bool,
    done: (Cover, usize),
)
    requires
        encoded_for(job, img, tmux, done),
    ensures
        ({
            let p = done.0.image();
            &&& job.key.protocol == ProtocolType::Kitty ==> {
                &&& shown_by(p) == ProtocolType::Kitty
                &&& shown_size(p) == job.key.size
                &&& kitty_name(p).0 == job.kitty_id && kitty_name(p).1 == tmux
                &&& transmission(p) == transmission_of(shown_image(p), job.kitty_id, tmux)
            }
            &&& job.key.protocol != ProtocolType::Kitty ==> shown_by(p) == picker_protocol(job.picker)
            &&& picker_font(job.picker) == job.key.font_size && job.key.size.width >= 1
                && job.key.size.height >= 1 ==> shown_size(p) == job.key.size
        }),
{
}

/// Covers of ordinary size can be encoded for every protocol, from images of ordinary size, and for
/// the Kitty protocol that succeeds.
pub proof fn ordinary_covers_can_be_encoded(job: Job, img: image::DynamicImage)
    requires
        image_size(img).0 <= 0x4000 && image_size(img).1 <= 0x4000,
        image_size(img).0 >= 1 && image_size(img).1 >= 1,
        1 <= job.key.size.width <= 200 && 1 <= job.key.size.height <= 200,
        1 <= job.key.font_size.width <= 32 && 1 <= job.key.font_size.height <= 32,
        picker_font(job.picker) == job.key.font_size,
    ensures
        job_encodable(job, img),
        job.key.protocol == ProtocolType::Kitty ==> succeeds(job, img),
{
    let (a, b) = (job.key.size.width as int, job.key.font_size.width as int);
    let (c, d) = (job.key.size.height as int, job.key.font_size.height as int);
    assert(1 <= a * b <= 6400) by (nonlinear_arith)
        requires
            1 <= a <= 200,
            1 <= b <= 32,
    ;
    assert(1 <= c * d <= 6400) by (nonlinear_arith)
        requires
            1 <= c <= 200,
            1 <= d <= 32,
    ;
    assert(a * c <= 40000) by (nonlinear_arith)
        requires
            1 <= a <= 200,
            1 <= c <= 200,
    ;
    let (w, h) = (a * b, c * d);
    assert(w * h <= 0x7fff_fff) by (nonlinear_arith)
        requires
            1 <= w <= 6400,
            1 <= h <= 6400,
    ;
    let g = image_size(img).0 as int;
    assert(g * h <= 0x7fff_fff) by (nonlinear_arith)
        requires
            1 <= g <= 0x4000,
            1 <= h <= 6400,
    ;
}

/// What became of a job carries the generation, the URL and the number of the job. Without an image
/// there is no cover and no error; with one, there is the cover that it encodes to, or the error.
pub proof fn results_are_those_of_their_jobs(
    job: Job,
    img: Option<image::DynamicImage>,
    tmux: bool,
    r: Encoded,
)
    requires
        became(job, img, tmux, r),
    ensures
        r.generation == job.generation && r.url@ == job.url@ && r.kitty_id == job.kitty_id,
        img is None ==> (r.result matches Ok(None)),
        img is Some ==> !(r.result matches Ok(None)),
        img is Some && job.key.protocol == ProtocolType::Kitty ==> (r.result matches Ok(Some(_))),
        img is Some && (picker_protocol(job.picker) == ProtocolType::Kitty || picker_protocol(job.picker)
            == ProtocolType::Halfblocks) ==> (r.result matches Ok(Some(_))),
        r.result matches Ok(Some(done)) ==> {
            let (w, h) = image_size(shown_image(done.0.image()));
            &&& w == job.key.size.width * job.key.font_size.width
            &&& h == job.key.size.height * job.key.font_size.height
            &&& shown_image(done.0.image()) == stretched(img->0, w, h)
        },
        r.result matches Ok(Some(done)) ==> (job.key.protocol == ProtocolType::Kitty ==> kitty_name(
            done.0.image(),
        ) == (r.kitty_id, tmux)),
{
    if let Ok(Some(done)) = r.result {
        a_cover_fills_its_cells(job, img->0, tmux, done);
    }
}

/// An image can be encoded for a job exactly where the image and the pixels of the cover are no more
/// than 2097152 wide and high and fit into memory, and, for protocols other than Kitty, where the
/// picker's cells have pixels that can be counted in sixteen bits over the cover, iTerm2 has something
/// to show, halfblocks and a picker for the Kitty protocol have something to show or an image that fills
/// the cells, and the cells of halfblocks can be counted in sixteen bits.
pub proof fn what_can_be_encoded(job: Job, img: image::DynamicImage)
    ensures
        ({
            let (size, cell) = (job.key.size, job.key.font_size);
            let font = picker_font(job.picker);
            let protocol = picker_protocol(job.picker);
            let (w, h) = (size.width * cell.width, size.height * cell.height);
            let (a, b) = image_size(img);
            let (across, down) = (size.width * font.width, size.height * font.height);
            let shows = size.width > 0 && size.height > 0 && w > 0 && h > 0;
            let filled = w == across && h == down;
            job_encodable(job, img) <==> {
                &&& a <= 2_097_152 && b <= 2_097_152 && w <= 2_097_152 && h <= 2_097_152
                &&& 16 * (w * h) <= isize::MAX && 16 * (a * h) <= isize::MAX
                &&& job.key.protocol == ProtocolType::Kitty || {
                    &&& font.width > 0 && font.height > 0 && across <= 65_535 && down <= 65_535
                    &&& protocol == ProtocolType::Iterm2 ==> shows
                    &&& protocol == ProtocolType::Kitty || protocol == ProtocolType::Halfblocks ==> shows
                        || filled
                    &&& protocol == ProtocolType::Halfblocks ==> size.width * size.height <= 65_535
                        && size.height <= 32_767
                }
            }
        }),
{
    lemma_pixels(job.key.size.width, job.key.font_size.width);
    lemma_pixels(job.key.size.height, job.key.font_size.height);
}

} // verus!
