//! Image handling: JPEG decoding and resizing behind trusted wrappers,
//! and the verified pixel bookkeeping around them — planar tensor
//! layout, file-name rules and overlay sizing.

use vstd::prelude::*;
use vstd::string::StrSliceExecFns;
use crate::codec::DetectError;
use zune_core::colorspace::ColorSpace;
use zune_core::options::DecoderOptions;
use zune_core::bytestream::ZCursor;
use zune_jpeg::JpegDecoder;

verus! {

/// A decoded image: interleaved RGB bytes and its dimensions.
pub struct Image {
    pub name: Option<String>,
    pub width: usize,
    pub height: usize,
    pub pixels: Vec<u8>,
}

impl Image {
    /// Grows or shrinks the pixel buffer to `size` bytes, keeping the
    /// common prefix and zero-filling new space.
    pub fn resize(&mut self, size: usize)
        ensures
            final(self).pixels@.len() == size,
            final(self).name == old(self).name,
            final(self).width == old(self).width,
            final(self).height == old(self).height,
            forall|i: int|
                0 <= i < size && i < old(self).pixels@.len() ==> final(self).pixels@[i] == old(
                    self,
                ).pixels@[i],
            forall|i: int|
                old(self).pixels@.len() <= i < size ==> final(self).pixels@[i] == 0,
    {
        self.pixels.resize(size, 0);
    }

    /// An empty image with room for a large decoded frame.
    pub fn empty() -> (r: Image)
        ensures
            r.name is None,
            r.width == 0,
            r.height == 0,
            r.pixels@.len() == 0,
    {
        Image { name: None, width: 0, height: 0, pixels: Vec::new() }
    }
}

impl Default for Image {
    /// The empty image.
    fn default() -> (r: Self)
        ensures
            r.name is None,
            r.width == 0,
            r.height == 0,
            r.pixels@.len() == 0,
    {
        Image::empty()
    }
}

/// Whether zune_jpeg's strict-mode decoder accepts the bytes as a
/// JPEG: a pure function of the bytes.
pub uninterp spec fn jpeg_decodes(bytes: Seq<u8>) -> bool;

/// The width of the frame the decoder reads from the bytes.
pub uninterp spec fn jpeg_width(bytes: Seq<u8>) -> int;

/// The height of the frame the decoder reads from the bytes.
pub uninterp spec fn jpeg_height(bytes: Seq<u8>) -> int;

/// Relies on zune_jpeg's `JpegDecoder` in strict mode with RGB output:
/// whether the bytes decode, and to what frame, depends on the bytes
/// alone; a decoded frame holds three bytes per pixel, and JPEG
/// dimensions fit sixteen bits. Nothing is promised of the pixel
/// values.
#[verifier::external_body]
fn decode_jpeg_into(data: &[u8], out: &mut Vec<u8>) -> (r: Result<(usize, usize), String>)
    ensures
        r is Ok <==> jpeg_decodes(data@),
        r matches Ok(dims) ==> dims.0 == jpeg_width(data@) && dims.1 == jpeg_height(data@)
            && final(out)@.len() == 3 * dims.0 * dims.1 && dims.0 <= 65535 && dims.1 <= 65535,
{
    let options = DecoderOptions::default().set_strict_mode(true).jpeg_set_out_colorspace(
        ColorSpace::RGB,
    );
    let mut decoder = JpegDecoder::new_with_options(ZCursor::new(data), options);
    decoder.decode_headers().map_err(|e| e.to_string())?;
    let size = decoder.output_buffer_size().ok_or_else(|| "no output buffer size".to_string())?;
    out.resize(size, 0);
    decoder.decode_into(out.as_mut_slice()).map_err(|e| e.to_string())?;
    let (w, h) = decoder.dimensions().ok_or_else(|| "no dimensions".to_string())?;
    Ok((w as usize, h as usize))
}

/// Decodes a JPEG into `image`'s buffer and records its name and
/// dimensions. Fails, with the decoder's words, exactly when the bytes
/// are not a valid JPEG; a failure only touches the pixel buffer.
pub fn decode_jpeg(name: Option<String>, jpeg: &Vec<u8>, image: &mut Image) -> (r: Result<
    (),
    DetectError,
>)
    ensures
        r is Ok <==> jpeg_decodes(jpeg@),
        r is Ok ==> {
            &&& final(image).pixels@.len() == 3 * final(image).width * final(image).height
            &&& final(image).width == jpeg_width(jpeg@)
            &&& final(image).height == jpeg_height(jpeg@)
            &&& final(image).width <= 65535
            &&& final(image).height <= 65535
            &&& final(image).name == name
        },
        r is Err ==> final(image).width == old(image).width && final(image).height == old(
            image,
        ).height && final(image).name == old(image).name,
        r matches Err(e) ==> e is ImageDecode,
{
    match decode_jpeg_into(jpeg.as_slice(), &mut image.pixels) {
        Ok((w, h)) => {
            image.width = w;
            image.height = h;
            image.name = name;
            Ok(())
        },
        Err(words) => Err(DetectError::ImageDecode(words)),
    }
}

/// A resizer bound to one target size.
pub struct ImageResizer {
    resizer: fast_image_resize::Resizer,
    target_width: usize,
    target_height: usize,
}

#[verifier::external_type_specification]
#[verifier::external_body]
pub struct ExFirResizer(fast_image_resize::Resizer);

/// Relies on fast_image_resize's `Resizer::new`: a fresh resizer.
pub assume_specification[ fast_image_resize::Resizer::new ]() -> fast_image_resize::Resizer;

/// Relies on fast_image_resize's `Resizer::resize` over `U8x3` pixel
/// buffers: it writes the destination in place, leaves both buffer
/// lengths and the source bytes unchanged, and fails exactly when a
/// buffer is shorter than its three bytes per pixel (the only failure
/// its source has for matching `U8x3` views under default options).
#[verifier::external_body]
fn resize_into(
    resizer: &mut fast_image_resize::Resizer,
    src: &mut Vec<u8>,
    src_w: usize,
    src_h: usize,
    dst: &mut Vec<u8>,
    dst_w: usize,
    dst_h: usize,
) -> (r: Result<(), String>)
    requires
        src_w <= 0xFFFF_FFFF,
        src_h <= 0xFFFF_FFFF,
        dst_w <= 0xFFFF_FFFF,
        dst_h <= 0xFFFF_FFFF,
        3 * src_w * src_h <= usize::MAX,
        3 * dst_w * dst_h <= usize::MAX,
    ensures
        final(dst)@.len() == old(dst)@.len(),
        final(src)@ == old(src)@,
        r is Ok <==> (old(src)@.len() >= 3 * src_w * src_h && old(dst)@.len() >= 3 * dst_w
            * dst_h),
{
    let s = fast_image_resize::images::Image::from_slice_u8(
        src_w as u32,
        src_h as u32,
        src.as_mut_slice(),
        fast_image_resize::PixelType::U8x3,
    ).map_err(|e| e.to_string())?;
    let mut d = fast_image_resize::images::Image::from_slice_u8(
        dst_w as u32,
        dst_h as u32,
        dst.as_mut_slice(),
        fast_image_resize::PixelType::U8x3,
    ).map_err(|e| e.to_string())?;
    resizer.resize(&s, &mut d, None).map_err(|e| e.to_string())?;
    Ok(())
}

impl ImageResizer {
    /// The target size this resizer is valid for.
    pub closed spec fn spec_wf(&self) -> bool {
        1 <= self.target_width <= 16384 && 1 <= self.target_height <= 16384
    }

    /// The width this resizer produces.
    pub closed spec fn spec_target_width(&self) -> usize {
        self.target_width
    }

    /// The height this resizer produces.
    pub closed spec fn spec_target_height(&self) -> usize {
        self.target_height
    }

    /// A resizer for the given target size.
    pub fn new(target_width: usize, target_height: usize) -> (r: Result<ImageResizer, DetectError>)
        requires
            1 <= target_width <= 16384,
            1 <= target_height <= 16384,
        ensures
            r matches Ok(z) ==> z.spec_wf() && z.spec_target_width() == target_width
                && z.spec_target_height() == target_height,
            r is Ok,
    {
        Ok(
            ImageResizer {
                resizer: fast_image_resize::Resizer::new(),
                target_width,
                target_height,
            },
        )
    }

    /// Resizes `original_image` into `resized_image`'s buffer, which is
    /// sized to three bytes per target pixel. Succeeds exactly when the
    /// source buffer holds its three bytes per pixel.
    pub fn resize_image(&mut self, original_image: &mut Image, resized_image: &mut Image) -> (r:
        Result<(), DetectError>)
        requires
            old(self).spec_wf(),
            old(original_image).width <= 65535,
            old(original_image).height <= 65535,
            3 * old(original_image).width * old(original_image).height <= usize::MAX,
        ensures
            r is Ok <==> old(original_image).pixels@.len() >= 3 * old(original_image).width * old(
                original_image,
            ).height,
            final(self).spec_wf(),
            final(self).spec_target_width() == old(self).spec_target_width(),
            final(self).spec_target_height() == old(self).spec_target_height(),
            final(original_image).width == old(original_image).width,
            final(original_image).height == old(original_image).height,
            final(original_image).pixels@ == old(original_image).pixels@,
            r is Ok ==> {
                &&& final(resized_image).width == old(self).spec_target_width()
                &&& final(resized_image).height == old(self).spec_target_height()
                &&& final(resized_image).pixels@.len() == 3 * old(self).spec_target_width() * old(
                    self,
                ).spec_target_height()
            },
    {
        resized_image.width = self.target_width;
        resized_image.height = self.target_height;
        let tw = self.target_width;
        let th = self.target_height;
        assert(tw * th * 3 <= 16384 * 16384 * 3 && (tw as int) * (th as int) * 3 == 3 * (tw as int)
            * (th as int)) by (nonlinear_arith)
            requires
                1 <= tw <= 16384,
                1 <= th <= 16384,
        ;
        resized_image.resize(tw * th * 3);
        match resize_into(
            &mut self.resizer,
            &mut original_image.pixels,
            original_image.width,
            original_image.height,
            &mut resized_image.pixels,
            self.target_width,
            self.target_height,
        ) {
            Ok(()) => Ok(()),
            Err(words) => Err(DetectError::ImageResize(words)),
        }
    }
}

/// The planar relation: channel-major bytes over interleaved RGB.
pub open spec fn spec_planar_ok(planar: Seq<u8>, inter: Seq<u8>, w: int, h: int) -> bool {
    &&& planar.len() == 3 * w * h
    &&& forall|c: int, idx: int|
        0 <= c < 3 && 0 <= idx < w * h ==> #[trigger] planar[c * w * h + idx] == inter[3 * idx + c]
}

/// Scatters interleaved RGB bytes into a planar channel-major buffer,
/// the layout the input tensor wants.
#[verifier::loop_isolation(false)]
pub fn planarize(pixels: &Vec<u8>, width: usize, height: usize, out: &mut Vec<u8>)
    requires
        pixels@.len() == 3 * width * height,
    ensures
        spec_planar_ok(final(out)@, pixels@, width as int, height as int),
{
    let ghost gw = width as int;
    let ghost gh = height as int;
    proof {
        assert(width * height * 3 == 3 * gw * gh && width * height <= 3 * gw * gh) by (
        nonlinear_arith)
            requires
                gw == width,
                gh == height,
                width >= 0,
                height >= 0,
        ;
    }
    let wh: usize = pixels.len() / 3;
    proof {
        assert(wh == gw * gh);
    }
    out.clear();
    let mut c: usize = 0;
    while c < 3
        invariant
            0 <= c <= 3,
            out@.len() == c * wh,
            forall|c2: int, idx: int|
                0 <= c2 < c && 0 <= idx < wh ==> #[trigger] out@[c2 * wh + idx] == pixels@[3 * idx
                    + c2],
        decreases 3 - c,
    {
        let mut idx: usize = 0;
        while idx < wh
            invariant
                0 <= idx <= wh,
                0 <= c < 3,
                out@.len() == c * wh + idx,
                forall|c2: int, idx2: int|
                    0 <= c2 < c && 0 <= idx2 < wh ==> #[trigger] out@[c2 * wh + idx2]
                        == pixels@[3 * idx2 + c2],
                forall|idx2: int|
                    0 <= idx2 < idx ==> #[trigger] out@[c * wh + idx2] == pixels@[3 * idx2 + c],
            decreases wh - idx,
        {
            proof {
                assert(3 * (idx as int) + (c as int) < 3 * gw * gh) by (nonlinear_arith)
                    requires
                        0 <= idx,
                        (idx as int) < gw * gh,
                        0 <= c < 3,
                        gw >= 0,
                        gh >= 0,
                ;
            }
            let ghost old_out = out@;
            out.push(pixels[3 * idx + c]);
            proof {
                assert forall|c2: int, idx2: int|
                    0 <= c2 < c && 0 <= idx2 < wh implies #[trigger] out@[c2 * wh + idx2]
                    == pixels@[3 * idx2 + c2] by {
                    assert(c2 * (wh as int) + idx2 < (c as int) * (wh as int)) by (nonlinear_arith)
                        requires
                            0 <= c2 < c as int,
                            0 <= idx2 < wh as int,
                    ;
                    assert(out@[c2 * wh + idx2] == old_out[c2 * wh + idx2]);
                }
            }
            idx = idx + 1;
        }
        proof {
            assert(((c as int) + 1) * (wh as int) == (c as int) * (wh as int) + (wh as int)) by (
            nonlinear_arith);
        }
        c = c + 1;
    }
    proof {
        assert(out@.len() == 3 * wh);
        assert(3 * (wh as int) == 3 * gw * gh) by (nonlinear_arith)
            requires
                wh == gw * gh,
        ;
        assert forall|c2: int, idx2: int|
            0 <= c2 < 3 && 0 <= idx2 < gw * gh implies #[trigger] out@[c2 * gw * gh + idx2]
            == pixels@[3 * idx2 + c2] by {
            assert(c2 * gw * gh == c2 * (wh as int)) by (nonlinear_arith)
                requires
                    wh == gw * gh,
            ;
            assert(out@[c2 * (wh as int) + idx2] == pixels@[3 * idx2 + c2]);
        }
    }
}

/// What `str::to_lowercase` returns: a pure function of the characters.
pub uninterp spec fn lower_of(s: Seq<char>) -> Seq<char>;

/// Relies on `str::to_lowercase`: the result depends on the characters
/// alone, and an empty string stays empty.
#[verifier::external_body]
pub fn lowercase(s: &str) -> (r: String)
    ensures
        r@ == lower_of(s@),
        s@.len() == 0 ==> r@.len() == 0,
{
    s.to_lowercase()
}

/// `suffix` closes `s`.
pub open spec fn spec_ends_with(s: Seq<char>, suffix: Seq<char>) -> bool {
    suffix.len() <= s.len() && s.skip(s.len() - suffix.len()) == suffix
}

/// Whether `s` ends with `suffix`, character for character.
pub fn ends_with(s: &str, suffix: &str) -> (r: bool)
    ensures
        r == spec_ends_with(s@, suffix@),
{
    let n = s.unicode_len();
    let m = suffix.unicode_len();
    if m > n {
        return false;
    }
    let mut i: usize = 0;
    while i < m
        invariant
            0 <= i <= m,
            m <= n,
            n == s@.len(),
            m == suffix@.len(),
            forall|j: int| 0 <= j < i ==> s@[n - m + j] == suffix@[j],
        decreases m - i,
    {
        if s.get_char(n - m + i) != suffix.get_char(i) {
            assert(s@.skip(n - m)[i as int] != suffix@[i as int]);
            return false;
        }
        i = i + 1;
    }
    proof {
        assert(s@.skip(n - m) =~= suffix@);
    }
    true
}

/// A JPEG file name: lowercased, it ends in `.jpg` or `.jpeg`.
pub open spec fn spec_is_jpeg(name: Seq<char>) -> bool {
    spec_ends_with(lower_of(name), ".jpg"@) || spec_ends_with(lower_of(name), ".jpeg"@)
}

/// Whether the name, lowercased, ends in `.jpg` or `.jpeg`.
pub fn is_jpeg(image_name: &str) -> (r: bool)
    ensures
        r == spec_is_jpeg(image_name@),
{
    let lower = lowercase(image_name);
    ends_with(lower.as_str(), ".jpg") || ends_with(lower.as_str(), ".jpeg")
}

/// Why an image name was rejected.
#[derive(Clone, Copy, Debug, PartialEq, Eq, Structural)]
pub enum ImageNameError {
    /// The name does not end in `.jpg` or `.jpeg` once lowercased.
    NotJpeg,
    /// The name has no extension to rewrite.
    NoExtension,
}

/// The part of `s` after its last `/`: the file-name component.
pub open spec fn spec_after_last_slash(s: Seq<char>) -> Seq<char>
    decreases s.len(),
{
    if s.len() == 0 {
        s
    } else if s.last() == '/' {
        Seq::empty()
    } else {
        spec_after_last_slash(s.drop_last()).push(s.last())
    }
}

/// Index of the last `.` in `s`, if any.
pub open spec fn spec_last_dot(s: Seq<char>) -> Option<int>
    decreases s.len(),
{
    if s.len() == 0 {
        None
    } else if s.last() == '.' {
        Some(s.len() - 1)
    } else {
        spec_last_dot(s.drop_last())
    }
}

proof fn lemma_after_last_slash_at(s: Seq<char>, k: int)
    requires
        0 <= k <= s.len(),
        forall|i: int| k <= i < s.len() ==> s[i] != '/',
        k == 0 || s[k - 1] == '/',
    ensures
        spec_after_last_slash(s) =~= s.subrange(k, s.len() as int),
    decreases s.len() - k,
{
    if k == s.len() {
        if k == 0 {
        } else {
            assert(s.last() == '/');
        }
    } else {
        assert(s.last() != '/');
        lemma_after_last_slash_at(s.drop_last(), k);
        assert(s.drop_last().subrange(k, s.drop_last().len() as int).push(s.last()) =~= s.subrange(
            k,
            s.len() as int,
        ));
    }
}

proof fn lemma_last_dot_at(s: Seq<char>, k: int)
    requires
        0 <= k <= s.len(),
        forall|i: int| k <= i < s.len() ==> s[i] != '.',
    ensures
        k == 0 ==> spec_last_dot(s) is None,
        k >= 1 && s[k - 1] == '.' ==> spec_last_dot(s) == Some(k - 1),
    decreases s.len() - k,
{
    if k < s.len() {
        assert(s.last() != '.');
        lemma_last_dot_at(s.drop_last(), k);
    }
}

/// The object-detection output name for a JPEG: `_od` slipped in before
/// the extension, with the directory part dropped when `strip_path` is
/// set. Rejects names that are not JPEG names or have no extension.
pub fn create_od_image_name(image_name: &str, strip_path: bool) -> (r: Result<
    String,
    ImageNameError,
>)
    ensures
        r == Err::<String, ImageNameError>(ImageNameError::NotJpeg) <==> !spec_is_jpeg(
            image_name@,
        ),
        spec_is_jpeg(image_name@) ==> {
            let t = if strip_path {
                spec_after_last_slash(image_name@)
            } else {
                image_name@
            };
            &&& r == Err::<String, ImageNameError>(ImageNameError::NoExtension) <==> (spec_last_dot(
                t,
            ) is None || spec_last_dot(t) == Some(t.len() - 1))
            &&& r matches Ok(name) ==> spec_last_dot(t) matches Some(p) && p < t.len() - 1
                && name@ == t.subrange(0, p) + "_od."@ + t.subrange(p + 1, t.len() as int)
        },
{
    if !is_jpeg(image_name) {
        return Err(ImageNameError::NotJpeg);
    }
    let n = image_name.unicode_len();
    let stripped: &str = if strip_path {
        let mut k: usize = n;
        while k > 0 && image_name.get_char(k - 1) != '/'
            invariant
                0 <= k <= n,
                n == image_name@.len(),
                forall|i: int| k <= i < n ==> image_name@[i] != '/',
            decreases k,
        {
            k = k - 1;
        }
        proof {
            lemma_after_last_slash_at(image_name@, k as int);
        }
        image_name.substring_char(k, n)
    } else {
        image_name
    };
    let m = stripped.unicode_len();
    let mut d: usize = m;
    while d > 0 && stripped.get_char(d - 1) != '.'
        invariant
            0 <= d <= m,
            m == stripped@.len(),
            forall|i: int| d <= i < m ==> stripped@[i] != '.',
        decreases d,
    {
        d = d - 1;
    }
    proof {
        lemma_last_dot_at(stripped@, d as int);
    }
    if d == 0 {
        return Err(ImageNameError::NoExtension);
    }
    let p = d - 1;
    if p + 1 >= m {
        return Err(ImageNameError::NoExtension);
    }
    let base = stripped.substring_char(0, p);
    let ext = stripped.substring_char(p + 1, m);
    let mut out = <String as vstd::string::StringExecFns>::from_str(base);
    <String as vstd::string::StringExecFns>::append(&mut out, "_od.");
    <String as vstd::string::StringExecFns>::append(&mut out, ext);
    Ok(out)
}

/// The overlay sizing rule: the drawing scale is the largest of
/// `width / base_width`, `height / base_height` and one half; the line
/// thickness is that scale rounded up (at least one pixel) and the
/// legend size sixteen times it rounded up (at least twelve).
pub open spec fn spec_boundary_box_config(w: int, h: int, bw: int, bh: int) -> (int, int) {
    let num_den: (int, int) = if w * bh >= h * bw {
        if 2 * w >= bw {
            (w, bw)
        } else {
            (1, 2)
        }
    } else {
        if 2 * h >= bh {
            (h, bh)
        } else {
            (1, 2)
        }
    };
    let num = num_den.0;
    let den = num_den.1;
    let thickness = (num + den - 1) / den;
    let font = (16 * num + den - 1) / den;
    (
        if thickness >= 1 {
            thickness
        } else {
            1
        },
        if font >= 12 {
            font
        } else {
            12
        },
    )
}

/// Sizes the box lines and legend for the overlay; see
/// `spec_boundary_box_config`.
pub fn boundary_box_config(width: u32, height: u32, base_width: u32, base_height: u32) -> (r: (
    usize,
    u64,
))
    requires
        base_width >= 1,
        base_height >= 1,
    ensures
        ({
            let expected = spec_boundary_box_config(
                width as int,
                height as int,
                base_width as int,
                base_height as int,
            );
            r.0 == expected.0 && r.1 == expected.1
        }),
{
    let w = width as u64;
    let h = height as u64;
    let bw = base_width as u64;
    let bh = base_height as u64;
    assert(w * bh <= 0xFFFF_FFFFu64 * 0xFFFF_FFFFu64 && h * bw <= 0xFFFF_FFFFu64
        * 0xFFFF_FFFFu64) by (nonlinear_arith)
        requires
            w <= 0xFFFF_FFFFu64,
            bh <= 0xFFFF_FFFFu64,
            h <= 0xFFFF_FFFFu64,
            bw <= 0xFFFF_FFFFu64,
    ;
    let (num, den): (u64, u64) = if w * bh >= h * bw {
        if 2 * w >= bw {
            (w, bw)
        } else {
            (1, 2)
        }
    } else {
        if 2 * h >= bh {
            (h, bh)
        } else {
            (1, 2)
        }
    };
    let thickness: u64 = (num + den - 1) / den;
    let font: u64 = (16 * num + den - 1) / den;
    let thickness_px: usize = if thickness >= 1 {
        assert(thickness as int <= num as int) by (nonlinear_arith)
            requires
                den as int >= 1,
                thickness as int == (num as int + den as int - 1) / (den as int),
                thickness as int >= 1,
        ;
        thickness as usize
    } else {
        1
    };
    (thickness_px, if font >= 12 {
        font
    } else {
        12
    })
}

/// Relies on `uuid::Uuid::new_v4` and std formatting: a random name.
/// Nothing is promised of the random digits, only the fixed frame
/// around them.
#[verifier::external_body]
pub fn create_random_jpeg_name() -> (r: String)
    ensures
        spec_ends_with(r@, ".jpg"@),
{
    format!("image_{}.jpg", uuid::Uuid::new_v4())
}

} // verus!
