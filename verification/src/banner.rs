//! Counts drawn as images: a theme holds one picture per decimal digit, and
//! a count is drawn by putting the pictures of its digits side by side.

use crate::assets::{
    asset_of, digit_of, file_name, file_name_of, file_stem, parse_asset_path, parse_number,
};
use crate::utils::{
    decimal_chars, decimal_text, lemma_padded_digits_small, padded_digits, same_text, u64_to_digit,
};
use std::collections::HashMap;
use vstd::prelude::*;

verus! {

broadcast use vstd::std_specs::hash::group_hash_axioms;

/// The image formats that the library reads and writes.
#[derive(Clone, Copy, Debug, PartialEq, Eq)]
pub enum PictureFormat {
    Png,
    Jpeg,
    Gif,
    WebP,
    Bmp,
}

/// The MIME type of `format`.
pub open spec fn mime_type_of(format: PictureFormat) -> Seq<char> {
    match format {
        PictureFormat::Png => "image/png"@,
        PictureFormat::Jpeg => "image/jpeg"@,
        PictureFormat::Gif => "image/gif"@,
        PictureFormat::WebP => "image/webp"@,
        PictureFormat::Bmp => "image/bmp"@,
    }
}

impl PictureFormat {
    /// The MIME type of the format.
    pub fn to_mime_type(&self) -> (mime: &'static str)
        ensures
            mime@ == mime_type_of(*self),
    {
        match self {
            PictureFormat::Png => "image/png",
            PictureFormat::Jpeg => "image/jpeg",
            PictureFormat::Gif => "image/gif",
            PictureFormat::WebP => "image/webp",
            PictureFormat::Bmp => "image/bmp",
        }
    }
}

/// Why a picture could not be read, drawn or found.
#[derive(Debug)]
pub enum BannerError {
    /// The first bytes are those of no format that the library reads.
    UnknownFormat,
    /// The image codec failed.
    Codec { reason: String },
    /// The pictures side by side are wider than an image can be.
    TooWide,
    /// The image has more pixels or bytes than memory can address.
    TooLarge,
    /// No theme has this name.
    ThemeNotFound { name: String },
}

/// A decoded image, as the `image` crate holds it.
#[verifier::external_type_specification]
#[verifier::external_body]
pub struct ExDynamicImage(image::DynamicImage);

/// `Clone` of `image::DynamicImage`, which copies the image. Nothing is
/// claimed of the copy.
pub assume_specification[ <image::DynamicImage as Clone>::clone ](
    source: &image::DynamicImage,
) -> image::DynamicImage
;

/// What the `image` crate reports when a call fails.
#[verifier::external_type_specification]
#[verifier::external_body]
pub struct ExImageError(image::ImageError);

/// The format that `image::guess_format` finds in the first bytes of
/// `bytes`, where it is one that the library reads.
pub uninterp spec fn guessed_format(bytes: Seq<u8>) -> Option<PictureFormat>;

/// The width and height of the image that
/// `image::load_from_memory_with_format` makes of `bytes` read as `format`,
/// where it makes one.
pub uninterp spec fn decoded_size(bytes: Seq<u8>, format: PictureFormat) -> Option<(u32, u32)>;

/// The standard base64 text of `bytes`, with padding, as
/// `base64::engine::general_purpose::STANDARD` writes it.
pub uninterp spec fn base64_standard(bytes: Seq<u8>) -> Seq<char>;

/// A decoded image together with the format it is written in.
#[derive(Debug, Clone)]
pub struct DynamicImageWithFormat {
    data: image::DynamicImage,
    format: PictureFormat,
    /// The width of `data` in pixels.
    width: u32,
    /// The height of `data` in pixels.
    height: u32,
}

/// `image::guess_format`: the format that the first bytes of `bytes` are the
/// mark of. A format that the library does not read counts as none.
#[verifier::external_body]
fn guess_format(bytes: &[u8]) -> (format: Option<PictureFormat>)
    ensures
        format == guessed_format(bytes@),
{
    match image::guess_format(bytes) {
        Ok(image::ImageFormat::Png) => Some(PictureFormat::Png),
        Ok(image::ImageFormat::Jpeg) => Some(PictureFormat::Jpeg),
        Ok(image::ImageFormat::Gif) => Some(PictureFormat::Gif),
        Ok(image::ImageFormat::WebP) => Some(PictureFormat::WebP),
        Ok(image::ImageFormat::Bmp) => Some(PictureFormat::Bmp),
        _ => None,
    }
}

/// `image::load_from_memory_with_format`: reads `bytes` as an image in
/// `format`. The image comes with its width and height, which depend on the
/// bytes and the format alone.
#[verifier::external_body]
fn decode_as(bytes: &[u8], format: PictureFormat) -> (outcome: Result<
    DynamicImageWithFormat,
    image::ImageError,
>)
    ensures
        outcome is Ok <==> decoded_size(bytes@, format) is Some,
        outcome matches Ok(image) ==> image.format() == format && decoded_size(bytes@, format)
            == Some((image.width(), image.height())),
{
    let read_as = match format {
        PictureFormat::Png => image::ImageFormat::Png,
        PictureFormat::Jpeg => image::ImageFormat::Jpeg,
        PictureFormat::Gif => image::ImageFormat::Gif,
        PictureFormat::WebP => image::ImageFormat::WebP,
        PictureFormat::Bmp => image::ImageFormat::Bmp,
    };
    image::load_from_memory_with_format(bytes, read_as).map(
        |data| DynamicImageWithFormat { width: data.width(), height: data.height(), data, format },
    )
}

/// `image::DynamicImage::write_to` into a buffer in memory: the bytes of
/// `data` written in `format`. Nothing is claimed of the outcome.
#[verifier::external_body]
fn encode_as(data: &image::DynamicImage, format: PictureFormat) -> (outcome: Result<
    Vec<u8>,
    image::ImageError,
>) {
    let written_as = match format {
        PictureFormat::Png => image::ImageFormat::Png,
        PictureFormat::Jpeg => image::ImageFormat::Jpeg,
        PictureFormat::Gif => image::ImageFormat::Gif,
        PictureFormat::WebP => image::ImageFormat::WebP,
        PictureFormat::Bmp => image::ImageFormat::Bmp,
    };
    let mut buffer = std::io::Cursor::new(Vec::new());
    data.write_to(&mut buffer, written_as).map(|()| buffer.into_inner())
}

/// `image::DynamicImage::new_rgba8`: an image of `width` by `height`
/// transparent pixels, to be written in `format`. The pixels take four
/// bytes each, which together must fit in one allocation.
#[verifier::external_body]
fn blank_canvas(width: u32, height: u32, format: PictureFormat) -> (canvas: DynamicImageWithFormat)
    requires
        4 * width * height <= isize::MAX,
    ensures
        canvas.width() == width,
        canvas.height() == height,
        canvas.format() == format,
{
    DynamicImageWithFormat { data: image::DynamicImage::new_rgba8(width, height), format, width, height }
}

/// `image::GenericImage::copy_from`: copies the pixels of `picture` into
/// `canvas` with its top left corner at (`x`, 0). It succeeds exactly where
/// the picture lies within the canvas, whose size and format stay.
#[verifier::external_body]
fn paste(canvas: &mut DynamicImageWithFormat, picture: &DynamicImageWithFormat, x: u32) -> (outcome:
    Result<(), image::ImageError>)
    ensures
        final(canvas).width() == old(canvas).width(),
        final(canvas).height() == old(canvas).height(),
        final(canvas).format() == old(canvas).format(),
        outcome is Ok <==> x + picture.width() <= old(canvas).width() && picture.height() <= old(
            canvas,
        ).height(),
{
    image::GenericImage::copy_from(&mut canvas.data, &picture.data, x, 0)
}

/// The text that `image::ImageError` displays. Nothing is claimed of it.
#[verifier::external_body]
fn image_error_text(error: &image::ImageError) -> (text: String) {
    error.to_string()
}

/// `base64::Engine::encode` of the standard engine. The text is four
/// characters for every three bytes begun, which must fit in one allocation.
#[verifier::external_body]
fn base64_text(bytes: &[u8]) -> (text: String)
    requires
        bytes@.len() / 3 * 4 + 4 <= isize::MAX,
    ensures
        text@ == base64_standard(bytes@),
{
    base64::Engine::encode(&base64::engine::general_purpose::STANDARD, bytes)
}

impl DynamicImageWithFormat {
    /// The format that the image is written in.
    pub closed spec fn spec_format(&self) -> PictureFormat {
        self.format
    }

    /// The width in pixels.
    pub closed spec fn spec_width(&self) -> u32 {
        self.width
    }

    /// The height in pixels.
    pub closed spec fn spec_height(&self) -> u32 {
        self.height
    }

    /// The format that the image is written in.
    #[verifier::when_used_as_spec(spec_format)]
    pub fn format(&self) -> (format: PictureFormat)
        ensures
            format == self.spec_format(),
    {
        self.format
    }

    /// The width in pixels.
    #[verifier::when_used_as_spec(spec_width)]
    pub fn width(&self) -> (width: u32)
        ensures
            width == self.spec_width(),
    {
        self.width
    }

    /// The height in pixels.
    #[verifier::when_used_as_spec(spec_height)]
    pub fn height(&self) -> (height: u32)
        ensures
            height == self.spec_height(),
    {
        self.height
    }

    /// Reads an image from `bytes`, in the format that their first bytes are
    /// the mark of.
    pub fn decode(bytes: &[u8]) -> (outcome: Result<DynamicImageWithFormat, BannerError>)
        ensures
            match guessed_format(bytes@) {
                None => outcome == Err::<DynamicImageWithFormat, BannerError>(
                    BannerError::UnknownFormat,
                ),
                Some(format) => match decoded_size(bytes@, format) {
                    None => outcome matches Err(error) && error is Codec,
                    Some(size) => outcome matches Ok(image) && image.format() == format
                        && image.width() == size.0 && image.height() == size.1,
                },
            },
    {
        match guess_format(bytes) {
            None => Err(BannerError::UnknownFormat),
            Some(format) => match decode_as(bytes, format) {
                Ok(image) => Ok(image),
                Err(error) => Err(BannerError::Codec { reason: image_error_text(&error) }),
            },
        }
    }

    /// The decoded image that this one holds.
    pub closed spec fn spec_raw(&self) -> image::DynamicImage {
        self.data
    }

    /// The decoded image itself.
    pub fn as_raw(&self) -> (raw: &image::DynamicImage)
        ensures
            *raw == self.spec_raw(),
    {
        &self.data
    }

    /// The image written out in its format. Whether the codec can write it
    /// is for the codec to say; `written_out` says what becomes of its answer.
    pub fn encode(&self) -> (outcome: Result<Vec<u8>, BannerError>)
        ensures
            outcome matches Err(error) ==> error is Codec,
    {
        written_out(encode_as(&self.data, self.format))
    }
}

/// What `encode` returns for the outcome of the codec: the bytes that it
/// wrote, or else its failure with the reason that it gave.
pub fn written_out(outcome: Result<Vec<u8>, image::ImageError>) -> (written: Result<
    Vec<u8>,
    BannerError,
>)
    ensures
        match outcome {
            Ok(bytes) => written == Ok::<Vec<u8>, BannerError>(bytes),
            Err(_) => written matches Err(error) && error is Codec,
        },
{
    match outcome {
        Ok(bytes) => Ok(bytes),
        Err(error) => Err(BannerError::Codec { reason: image_error_text(&error) }),
    }
}

/// What an SVG picture is: its size in pixels and its text.
pub struct SvgModel {
    pub width: u32,
    pub height: u32,
    pub data: Seq<char>,
}

/// A picture as SVG text or as a `data:` address for use inside one.
#[derive(Debug, Clone)]
pub struct SvgImage {
    width: u32,
    height: u32,
    data: String,
}

impl View for SvgImage {
    type V = SvgModel;

    closed spec fn view(&self) -> SvgModel {
        SvgModel { width: self.width, height: self.height, data: self.data@ }
    }
}

/// The `data:` address that holds `bytes`, an image in `format`.
pub open spec fn data_uri(format: PictureFormat, bytes: Seq<u8>) -> Seq<char> {
    "data:"@ + mime_type_of(format) + ";charset=utf-8;base64,"@ + base64_standard(bytes)
}

/// Whether the base64 text of `len` bytes fits in one allocation.
pub open spec fn base64_fits(len: nat) -> bool {
    len / 3 * 4 + 4 <= isize::MAX
}

impl SvgImage {
    /// The text of the picture.
    pub fn data(&self) -> (text: &str)
        ensures
            text@ == self@.data,
    {
        self.data.as_str()
    }

    /// The width in pixels.
    pub fn width(&self) -> (width: u32)
        ensures
            width == self@.width,
    {
        self.width
    }

    /// The height in pixels.
    pub fn height(&self) -> (height: u32)
        ensures
            height == self@.height,
    {
        self.height
    }

    /// The `data:` address of an image of `width` by `height` pixels whose
    /// bytes in `format` are `encoded`.
    pub fn from_encoded(width: u32, height: u32, format: PictureFormat, encoded: &[u8]) -> (outcome:
        Result<SvgImage, BannerError>)
        ensures
            base64_fits(encoded@.len()) ==> (outcome matches Ok(picture) && picture@ == (SvgModel {
                width,
                height,
                data: data_uri(format, encoded@),
            })),
            !base64_fits(encoded@.len()) ==> (outcome matches Err(error) && error is TooLarge),
    {
        let len: usize = encoded.len();
        if len / 3 > (isize::MAX as usize - 4) / 4 {
            return Err(BannerError::TooLarge);
        }
        let mut data: String = "data:".to_owned();
        data.append(format.to_mime_type());
        data.append(";charset=utf-8;base64,");
        let text = base64_text(encoded);
        data.append(text.as_str());
        Ok(SvgImage { width, height, data })
    }

    /// The `data:` address of `image`, which holds the image written out in
    /// its format.
    pub fn from_image(image: &DynamicImageWithFormat) -> (outcome: Result<SvgImage, BannerError>)
        ensures
            outcome matches Ok(picture) ==> picture@.width == image.width() && picture@.height
                == image.height() && exists|bytes: Seq<u8>|
                picture@.data == data_uri(image.format(), bytes),
            outcome matches Err(error) ==> error is Codec || error is TooLarge,
    {
        match image.encode() {
            Ok(encoded) => SvgImage::from_encoded(
                image.width(),
                image.height(),
                image.format(),
                encoded.as_slice(),
            ),
            Err(error) => Err(error),
        }
    }
}

/// The width of the first `n` of `sizes` side by side.
pub open spec fn row_width(sizes: Seq<(u32, u32)>, n: int) -> int
    decreases n,
{
    if 0 < n <= sizes.len() {
        row_width(sizes, n - 1) + sizes[n - 1].0
    } else {
        0
    }
}

/// The largest height among the first `n` of `sizes`.
pub open spec fn row_height(sizes: Seq<(u32, u32)>, n: int) -> int
    decreases n,
{
    if 0 < n <= sizes.len() {
        if row_height(sizes, n - 1) >= sizes[n - 1].1 {
            row_height(sizes, n - 1)
        } else {
            sizes[n - 1].1 as int
        }
    } else {
        0
    }
}

/// The sizes of `pictures`, width first.
pub open spec fn svg_sizes(pictures: Seq<SvgModel>) -> Seq<(u32, u32)> {
    Seq::new(pictures.len(), |i: int| (pictures[i].width, pictures[i].height))
}

/// For each of `digits`, the entry of `per_digit` that belongs to it.
pub open spec fn picked<T>(per_digit: Map<u32, T>, digits: Seq<u32>) -> Seq<T> {
    Seq::new(digits.len(), |i: int| per_digit[digits[i]])
}

/// Whether `per_digit` has an entry for each of `digits`.
pub open spec fn covers<T>(per_digit: Map<u32, T>, digits: Seq<u32>) -> bool {
    forall|i: int| 0 <= i < digits.len() ==> per_digit.contains_key(#[trigger] digits[i])
}

/// The SVG element that shows `picture` with its left edge at `x`.
pub open spec fn svg_tag(x: nat, picture: SvgModel) -> Seq<char> {
    "<image x=\""@ + decimal_chars(x) + "\" y=\"0\" width=\""@ + decimal_chars(picture.width as nat)
        + "\" height=\""@ + decimal_chars(picture.height as nat) + "\" href=\""@ + picture.data
        + "\" />\n"@
}

/// The SVG elements that show the first `n` of `pictures` side by side.
pub open spec fn svg_tags(pictures: Seq<SvgModel>, n: int) -> Seq<char>
    decreases n,
{
    if 0 < n <= pictures.len() {
        svg_tags(pictures, n - 1) + svg_tag(
            row_width(svg_sizes(pictures), n - 1) as nat,
            pictures[n - 1],
        )
    } else {
        Seq::empty()
    }
}

/// The SVG document of `width` by `height` pixels that is titled `number`
/// and holds the elements `tags`.
pub open spec fn svg_document(
    width: nat,
    height: nat,
    pixelated: bool,
    number: nat,
    tags: Seq<char>,
) -> Seq<char> {
    "<?xml version=\"1.0\" encoding=\"UTF-8\"?>\n"@ + "<svg width=\""@ + decimal_chars(width)
        + "\" height=\""@ + decimal_chars(height)
        + "\" version=\"1.1\" xmlns=\"http://www.w3.org/2000/svg\" xmlns:xlink=\"http://www.w3.org/1999/xlink\""@
        + (if pixelated {
        " style='image-rendering: pixelated;'"@
    } else {
        Seq::<char>::empty()
    }) + ">\n"@ + "<title>"@ + decimal_chars(number) + "</title>\n"@ + "<g>"@ + tags + "</g>\n"@
        + "</svg>"@
}

/// The SVG picture of `number` with at least `count` digits in the pictures
/// `svgs`, which hold one for each of its digits; none where the row is
/// wider than an image can be.
pub open spec fn drawn_svg(
    svgs: Map<u32, SvgModel>,
    number: nat,
    count: nat,
    pixelated: bool,
) -> Option<
    SvgModel,
> {
    let pictures = picked(svgs, padded_digits(number, count));
    let sizes = svg_sizes(pictures);
    let n = pictures.len() as int;
    if row_width(sizes, n) <= u32::MAX {
        Some(
            SvgModel {
                width: row_width(sizes, n) as u32,
                height: row_height(sizes, n) as u32,
                data: svg_document(
                    row_width(sizes, n) as nat,
                    row_height(sizes, n) as nat,
                    pixelated,
                    number,
                    svg_tags(pictures, n),
                ),
            },
        )
    } else {
        None
    }
}

/// How the row of pictures of a number comes out.
#[derive(Debug)]
pub enum Drawn {
    /// An image of this size.
    Fits { width: u32, height: u32 },
    /// Wider than an image can be.
    TooWide,
    /// More pixels than one allocation holds.
    TooLarge,
}

/// How the row of the pictures of `number` with at least `count` digits
/// comes out, where the pictures of the digits have `sizes`.
pub open spec fn drawn_size(sizes: Map<u32, (u32, u32)>, number: nat, count: nat) -> Drawn {
    let row = picked(sizes, padded_digits(number, count));
    let n = row.len() as int;
    if row_width(row, n) > u32::MAX {
        Drawn::TooWide
    } else if 4 * row_width(row, n) * row_height(row, n) > isize::MAX {
        Drawn::TooLarge
    } else {
        Drawn::Fits { width: row_width(row, n) as u32, height: row_height(row, n) as u32 }
    }
}

/// A row never gets narrower or lower by a further picture.
pub proof fn lemma_row_grows(sizes: Seq<(u32, u32)>, m: int, n: int)
    requires
        0 <= m <= n <= sizes.len(),
    ensures
        0 <= row_width(sizes, m) <= row_width(sizes, n),
        0 <= row_height(sizes, m) <= row_height(sizes, n),
        row_height(sizes, n) <= u32::MAX,
        forall|i: int| 0 <= i < n ==> (#[trigger] sizes[i]).1 <= row_height(sizes, n),
    decreases n,
{
    if n > 0 {
        if m < n {
            lemma_row_grows(sizes, m, n - 1);
        } else {
            lemma_row_grows(sizes, m - 1, n - 1);
        }
    }
}

/// One picture for each number that has one, as an image and as SVG. A
/// number can be drawn where each of its digits has a picture.
#[derive(Debug, Clone)]
pub struct Theme {
    digits: HashMap<u32, DynamicImageWithFormat>,
    svg_digits: HashMap<u32, SvgImage>,
}

/// Whether `number` is among the first `n` of `numbers`.
pub open spec fn seen(numbers: Seq<u32>, n: int, number: u32) -> bool {
    exists|j: int| 0 <= j < n && j < numbers.len() && #[trigger] numbers[j] == number
}

impl Theme {
    /// The sizes of the images, by number, width first.
    pub closed spec fn sizes(&self) -> Map<u32, (u32, u32)> {
        Map::new(
            |number: u32| self.digits@.contains_key(number),
            |number: u32| (self.digits@[number].width(), self.digits@[number].height()),
        )
    }

    /// The SVG pictures, by number.
    pub closed spec fn svgs(&self) -> Map<u32, SvgModel> {
        Map::new(
            |number: u32| self.svg_digits@.contains_key(number),
            |number: u32| self.svg_digits@[number]@,
        )
    }

    /// Each image has an SVG picture of its size, and there is no other.
    pub closed spec fn wf(&self) -> bool {
        &&& forall|number: u32|
            self.svg_digits@.contains_key(number) <==> self.digits@.contains_key(number)
        &&& forall|number: u32|
            self.digits@.contains_key(number) ==> (#[trigger] self.svg_digits@[number])@.width
                == self.digits@[number].width() && self.svg_digits@[number]@.height
                == self.digits@[number].height()
    }

    /// What `wf` says, for those who cannot look inside.
    pub proof fn lemma_pictures(&self)
        requires
            self.wf(),
        ensures
            self.svgs().dom() == self.sizes().dom(),
            forall|number: u32| #[trigger]
                self.sizes().contains_key(number) ==> (
                self.svgs()[number].width,
                self.svgs()[number].height,
            ) == self.sizes()[number],
    {
        assert(self.svgs().dom() =~= self.sizes().dom());
    }

    /// Whether each digit of `number`, written with at least `digits_count`
    /// digits, has a picture.
    pub open spec fn can_draw(&self, number: u64, digits_count: u32) -> bool {
        covers(self.sizes(), padded_digits(number as nat, digits_count as nat))
    }

    /// A theme of `pictures`, each as an image and as SVG.
    pub fn new(pictures: DigitPictures) -> (outcome: Result<Theme, BannerError>)
        requires
            pictures.wf(),
        ensures
            outcome matches Ok(theme) ==> theme.wf() && theme.sizes() == pictures.found(),
            outcome matches Err(error) ==> error is Codec || error is TooLarge,
    {
        let ghost found = pictures.found();
        let DigitPictures { numbers, pictures: digits } = pictures;
        let mut svg_digits: HashMap<u32, SvgImage> = HashMap::new();
        let mut i: usize = 0;
        while i < numbers.len()
            invariant
                i <= numbers.len(),
                forall|number: u32| digits@.contains_key(number) <==> numbers@.contains(number),
                forall|number: u32|
                    svg_digits@.contains_key(number) <==> seen(numbers@, i as int, number),
                forall|number: u32|
                    svg_digits@.contains_key(number) ==> (#[trigger] svg_digits@[number])@.width
                        == digits@[number].width() && svg_digits@[number]@.height
                        == digits@[number].height(),
            decreases numbers.len() - i,
        {
            let number = numbers[i];
            assert(numbers@.contains(number));
            let ghost before = svg_digits@;
            match digits.get(&number) {
                Some(image) => {
                    match SvgImage::from_image(image) {
                        Ok(picture) => {
                            svg_digits.insert(number, picture);
                        },
                        Err(error) => {
                            return Err(error);
                        },
                    }
                },
                None => {
                    assert(false);
                },
            }
            assert forall|other: u32| svg_digits@.contains_key(other) <==> seen(
                numbers@,
                i + 1,
                other,
            ) by {
                if seen(numbers@, i + 1, other) {
                    let j = choose|j: int|
                        0 <= j < i + 1 && j < numbers.len() && numbers[j] == other;
                    if j < i {
                        assert(seen(numbers@, i as int, other));
                    }
                }
                if before.contains_key(other) {
                    let j = choose|j: int| 0 <= j < i && j < numbers.len() && numbers[j] == other;
                    assert(numbers[j] == other);
                }
                if other == number {
                    assert(numbers[i as int] == other);
                }
            }
            i = i + 1;
        }
        let theme = Theme { digits, svg_digits };
        assert forall|number: u32|
            theme.svg_digits@.contains_key(number) <==> theme.digits@.contains_key(number) by {
            if theme.digits@.contains_key(number) {
                assert(digits@.contains_key(number));
                assert(numbers@.contains(number));
                let j = choose|j: int| 0 <= j < numbers@.len() && numbers@[j] == number;
                assert(numbers@[j] == number);
                assert(seen(numbers@, numbers.len() as int, number));
            }
            if seen(numbers@, numbers.len() as int, number) {
                let j = choose|j: int|
                    0 <= j < numbers.len() && j < numbers.len() && numbers[j] == number;
                assert(numbers@.contains(number));
            }
        }
        assert(theme.sizes() =~= found);
        Ok(theme)
    }

    /// Whether each digit of `number`, written with at least `digits_count`
    /// digits, has a picture.
    pub fn has_pictures(&self, number: u64, digits_count: u32) -> (has: bool)
        ensures
            has == self.can_draw(number, digits_count),
    {
        let digits = u64_to_digit(number, digits_count);
        let mut i: usize = 0;
        while i < digits.len()
            invariant
                i <= digits.len(),
                digits@ == padded_digits(number as nat, digits_count as nat),
                forall|j: int| 0 <= j < i ==> self.sizes().contains_key(#[trigger] digits[j]),
            decreases digits.len() - i,
        {
            if !self.digits.contains_key(&digits[i]) {
                assert(!self.sizes().contains_key(digits[i as int]));
                return false;
            }
            i = i + 1;
        }
        true
    }

    /// The image of `digit`.
    fn picture_of(&self, digit: u32) -> (picture: &DynamicImageWithFormat)
        requires
            self.sizes().contains_key(digit),
        ensures
            (picture.width(), picture.height()) == self.sizes()[digit],
    {
        match self.digits.get(&digit) {
            Some(picture) => picture,
            None => vstd::pervasive::unreached(),
        }
    }

    /// The SVG picture of `digit`.
    fn svg_of(&self, digit: u32) -> (picture: &SvgImage)
        requires
            self.svgs().contains_key(digit),
        ensures
            picture@ == self.svgs()[digit],
    {
        match self.svg_digits.get(&digit) {
            Some(picture) => picture,
            None => vstd::pervasive::unreached(),
        }
    }

    /// The SVG picture of `number` with at least `digits_count` digits: the
    /// pictures of the digits side by side, each as a `data:` address. Each
    /// of the digits must have a picture.
    pub fn gen_svg(&self, number: u64, digits_count: u32, pixelated: bool) -> (outcome: Result<
        SvgImage,
        BannerError,
    >)
        requires
            self.wf(),
            self.can_draw(number, digits_count),
        ensures
            match drawn_svg(self.svgs(), number as nat, digits_count as nat, pixelated) {
                Some(model) => outcome matches Ok(svg) && svg@ == model,
                None => outcome matches Err(error) && error is TooWide,
            },
    {
        let digits = u64_to_digit(number, digits_count);
        let ghost pictures = picked(self.svgs(), digits@);
        let ghost sizes = svg_sizes(pictures);
        let mut tags = String::new();
        let mut width: u32 = 0;
        let mut height: u32 = 0;
        let mut i: usize = 0;
        while i < digits.len()
            invariant
                self.wf(),
                i <= digits.len(),
                digits@ == padded_digits(number as nat, digits_count as nat),
                covers(self.sizes(), digits@),
                pictures == picked(self.svgs(), digits@),
                sizes == svg_sizes(pictures),
                width == row_width(sizes, i as int),
                height == row_height(sizes, i as int),
                tags@ == svg_tags(pictures, i as int),
            decreases digits.len() - i,
        {
            assert(self.sizes().contains_key(digits[i as int]));
            let picture = self.svg_of(digits[i]);
            assert(picture@ == pictures[i as int]);
            assert(sizes[i as int] == (picture.width, picture.height));
            assert(row_width(sizes, i + 1) == row_width(sizes, i as int) + picture.width);
            let tag = image_tag(width, picture);
            tags.append(tag.as_str());
            match width.checked_add(picture.width) {
                Some(sum) => {
                    width = sum;
                },
                None => {
                    proof {
                        lemma_row_grows(sizes, i + 1, digits.len() as int);
                    }
                    return Err(BannerError::TooWide);
                },
            }
            if picture.height > height {
                height = picture.height;
            }
            i = i + 1;
        }
        let data = document(width, height, pixelated, number, tags.as_str());
        Ok(SvgImage { width, height, data })
    }

    /// The picture of `number` with at least `digits_count` digits as one
    /// image, to be written as WebP: the pictures of the digits side by
    /// side, their tops in line. Each of the digits must have a picture.
    pub fn gen_webp(&self, number: u64, digits_count: u32) -> (outcome: Result<
        DynamicImageWithFormat,
        BannerError,
    >)
        requires
            self.wf(),
            self.can_draw(number, digits_count),
        ensures
            match drawn_size(self.sizes(), number as nat, digits_count as nat) {
                Drawn::Fits { width, height } => outcome matches Ok(image) && image.width() == width
                    && image.height() == height && image.format() == PictureFormat::WebP,
                Drawn::TooWide => outcome matches Err(error) && error is TooWide,
                Drawn::TooLarge => outcome matches Err(error) && error is TooLarge,
            },
    {
        let digits = u64_to_digit(number, digits_count);
        let ghost sizes = picked(self.sizes(), digits@);
        let mut width: u32 = 0;
        let mut height: u32 = 0;
        let mut i: usize = 0;
        while i < digits.len()
            invariant
                self.wf(),
                i <= digits.len(),
                digits@ == padded_digits(number as nat, digits_count as nat),
                covers(self.sizes(), digits@),
                sizes == picked(self.sizes(), digits@),
                width == row_width(sizes, i as int),
                height == row_height(sizes, i as int),
            decreases digits.len() - i,
        {
            assert(self.sizes().contains_key(digits[i as int]));
            let picture = self.picture_of(digits[i]);
            assert(sizes[i as int] == (picture.width(), picture.height()));
            assert(row_width(sizes, i + 1) == row_width(sizes, i as int) + picture.width());
            match width.checked_add(picture.width()) {
                Some(sum) => {
                    width = sum;
                },
                None => {
                    proof {
                        lemma_row_grows(sizes, i + 1, digits.len() as int);
                    }
                    return Err(BannerError::TooWide);
                },
            }
            if picture.height() > height {
                height = picture.height();
            }
            i = i + 1;
        }
        if !canvas_fits(width, height) {
            return Err(BannerError::TooLarge);
        }
        let mut canvas = blank_canvas(width, height, PictureFormat::WebP);
        let mut x: u32 = 0;
        let mut i: usize = 0;
        while i < digits.len()
            invariant
                self.wf(),
                i <= digits.len(),
                digits@ == padded_digits(number as nat, digits_count as nat),
                covers(self.sizes(), digits@),
                sizes == picked(self.sizes(), digits@),
                x == row_width(sizes, i as int),
                width == row_width(sizes, digits.len() as int),
                height == row_height(sizes, digits.len() as int),
                canvas.width() == width,
                canvas.height() == height,
                canvas.format() == PictureFormat::WebP,
            decreases digits.len() - i,
        {
            assert(self.sizes().contains_key(digits[i as int]));
            let picture = self.picture_of(digits[i]);
            assert(sizes[i as int] == (picture.width(), picture.height()));
            proof {
                lemma_row_grows(sizes, i + 1, digits.len() as int);
            }
            match paste(&mut canvas, picture, x) {
                Ok(()) => {},
                Err(error) => {
                    return Err(BannerError::Codec { reason: image_error_text(&error) });
                },
            }
            x = x + picture.width();
            i = i + 1;
        }
        Ok(canvas)
    }
}

/// Whether an image of `width` by `height` pixels of four bytes each fits in
/// one allocation.
fn canvas_fits(width: u32, height: u32) -> (fits: bool)
    ensures
        fits == (4 * width * height <= isize::MAX),
{
    assert(width * height <= 0xffff_ffff * 0xffff_ffff && 4 * width * height == 4 * (width * height))
        by (nonlinear_arith)
        requires
            0 <= width <= 0xffff_ffff,
            0 <= height <= 0xffff_ffff,
    ;
    let pixels: u128 = (width as u128) * (height as u128);
    4 * pixels <= isize::MAX as u128
}

/// The SVG element that shows `picture` with its left edge at `x`.
fn image_tag(x: u32, picture: &SvgImage) -> (tag: String)
    ensures
        tag@ == svg_tag(x as nat, picture@),
{
    let mut tag: String = "<image x=\"".to_owned();
    tag.append(decimal_text(x as u64).as_str());
    tag.append("\" y=\"0\" width=\"");
    tag.append(decimal_text(picture.width as u64).as_str());
    tag.append("\" height=\"");
    tag.append(decimal_text(picture.height as u64).as_str());
    tag.append("\" href=\"");
    tag.append(picture.data.as_str());
    tag.append("\" />\n");
    tag
}

/// The SVG document around `tags`.
fn document(width: u32, height: u32, pixelated: bool, number: u64, tags: &str) -> (text: String)
    ensures
        text@ == svg_document(width as nat, height as nat, pixelated, number as nat, tags@),
{
    let mut text: String = "<?xml version=\"1.0\" encoding=\"UTF-8\"?>\n".to_owned();
    text.append("<svg width=\"");
    text.append(decimal_text(width as u64).as_str());
    text.append("\" height=\"");
    text.append(decimal_text(height as u64).as_str());
    text.append(
        "\" version=\"1.1\" xmlns=\"http://www.w3.org/2000/svg\" xmlns:xlink=\"http://www.w3.org/1999/xlink\"",
    );
    if pixelated {
        text.append(" style='image-rendering: pixelated;'");
    } else {
        assert(text@ + Seq::<char>::empty() =~= text@);
    }
    text.append(">\n");
    text.append("<title>");
    text.append(decimal_text(number).as_str());
    text.append("</title>\n");
    text.append("<g>");
    text.append(tags);
    text.append("</g>\n");
    text.append("</svg>");
    text
}

/// `items` in the opposite order.
fn reversed<T>(items: Vec<T>) -> (turned: Vec<T>)
    ensures
        turned@ == items@.reverse(),
{
    let mut items = items;
    let ghost all = items@;
    let mut turned: Vec<T> = Vec::new();
    while items.len() > 0
        invariant
            items@ =~= all.subrange(0, items.len() as int),
            turned.len() + items.len() == all.len(),
            forall|j: int| 0 <= j < turned.len() ==> #[trigger] turned[j] == all[all.len() - 1 - j],
        decreases items.len(),
    {
        match items.pop() {
            Some(item) => {
                turned.push(item);
            },
            None => {},
        }
    }
    assert(turned@ =~= all.reverse());
    turned
}

/// The pictures of one theme as they are found, by number, with the
/// numbers in the order in which they first came.
pub struct DigitPictures {
    numbers: Vec<u32>,
    pictures: HashMap<u32, DynamicImageWithFormat>,
}

impl DigitPictures {
    /// Every number with a picture stands in `numbers`, once, and no other does.
    pub closed spec fn wf(&self) -> bool {
        &&& self.numbers@.no_duplicates()
        &&& forall|number: u32| self.pictures@.contains_key(number) <==> self.numbers@.contains(number)
    }

    /// The numbers that have a picture, each once, in the order in which
    /// they first came.
    pub closed spec fn numbers(&self) -> Seq<u32> {
        self.numbers@
    }

    /// For each number the size of its picture.
    pub closed spec fn found(&self) -> Map<u32, (u32, u32)> {
        Map::new(
            |number: u32| self.pictures@.contains_key(number),
            |number: u32| (self.pictures@[number].width(), self.pictures@[number].height()),
        )
    }

    /// What `wf` says, for those who cannot look inside.
    pub proof fn lemma_numbers(&self)
        requires
            self.wf(),
        ensures
            self.numbers().no_duplicates(),
            forall|number: u32| self.found().contains_key(number) <==> self.numbers().contains(number),
    {
    }

    /// No picture yet.
    pub fn new() -> (pictures: DigitPictures)
        ensures
            pictures.wf(),
            pictures.numbers() == Seq::<u32>::empty(),
            pictures.found() == Map::<u32, (u32, u32)>::empty(),
    {
        let pictures = DigitPictures { numbers: Vec::new(), pictures: HashMap::new() };
        assert(pictures.found() =~= Map::<u32, (u32, u32)>::empty());
        pictures
    }

    /// Takes `image` as the picture of `number`, in place of any it had.
    pub fn insert(&mut self, number: u32, image: DynamicImageWithFormat)
        requires
            old(self).wf(),
        ensures
            final(self).wf(),
            final(self).found() == old(self).found().insert(number, (image.width(), image.height())),
            final(self).numbers() == if old(self).found().contains_key(number) {
                old(self).numbers()
            } else {
                old(self).numbers().push(number)
            },
    {
        let known = self.pictures.contains_key(&number);
        let ghost numbers_before = self.numbers@;
        let ghost found_before = self.found();
        if !known {
            self.numbers.push(number);
        }
        self.pictures.insert(number, image);
        proof {
            let numbers_after = self.numbers@;
            if known {
                assert(numbers_after =~= numbers_before);
            } else {
                assert(numbers_after =~= numbers_before.push(number));
                assert forall|i: int, j: int|
                    0 <= i < numbers_after.len() && 0 <= j < numbers_after.len() && i
                        != j implies numbers_after[i] != numbers_after[j] by {
                    if i < numbers_before.len() && j < numbers_before.len() {
                    } else if i < numbers_before.len() {
                        assert(numbers_before.contains(numbers_before[i]));
                    } else {
                        assert(numbers_before.contains(numbers_before[j]));
                    }
                }
            }
            assert forall|other: u32| self.pictures@.contains_key(other) <==> numbers_after.contains(
                other,
            ) by {
                if !known {
                    if other == number {
                        assert(numbers_after[numbers_after.len() - 1] == other);
                    } else if numbers_before.contains(other) {
                        let i = choose|i: int|
                            0 <= i < numbers_before.len() && numbers_before[i] == other;
                        assert(numbers_after[i] == other);
                    }
                }
            }
            assert(self.found() =~= found_before.insert(number, (image.width(), image.height())));
        }
    }

    /// How many numbers have a picture.
    pub fn len(&self) -> (count: usize)
        ensures
            count == self.numbers().len(),
    {
        self.numbers.len()
    }
}

/// A picture file as it was read: where it lies and what it holds.
#[derive(Debug)]
pub struct AssetFile {
    pub path: String,
    pub bytes: Vec<u8>,
}

/// A directory of picture files that may be a theme.
#[derive(Debug)]
pub struct ThemeDirectory {
    pub name: String,
    pub files: Vec<AssetFile>,
}

/// The size of the picture that `bytes` hold, where they hold one.
pub open spec fn picture_size(bytes: Seq<u8>) -> Option<(u32, u32)> {
    match guessed_format(bytes) {
        Some(format) => decoded_size(bytes, format),
        None => None,
    }
}

/// What a file gives to a theme: a number and the size of its picture.
pub type Mark = Option<(u32, (u32, u32))>;

/// What `file` gives to the theme of the directory it lies in: its name
/// must be a number and its bytes a picture.
pub open spec fn directory_mark(file: AssetFile) -> Mark {
    match (digit_of(file_name_of(file.path@)), picture_size(file.bytes@)) {
        (Some(digit), Some(size)) => Some((digit, size)),
        _ => None,
    }
}

/// What `file` gives to the theme `theme`: its path must name that theme
/// and a number, and its bytes must be a picture.
pub open spec fn theme_mark(file: AssetFile, theme: Seq<char>) -> Mark {
    match (asset_of(file.path@), picture_size(file.bytes@)) {
        (Some(asset), Some(size)) => if asset.0 == theme {
            Some((asset.1, size))
        } else {
            None
        },
        _ => None,
    }
}

/// `directory_mark` of each of `files`.
pub open spec fn directory_marks(files: Seq<AssetFile>) -> Seq<Mark> {
    Seq::new(files.len(), |i: int| directory_mark(files[i]))
}

/// `theme_mark` of each of `files`.
pub open spec fn theme_marks(files: Seq<AssetFile>, theme: Seq<char>) -> Seq<Mark> {
    Seq::new(files.len(), |i: int| theme_mark(files[i], theme))
}

/// The pictures that the first `n` of `marks` add up to: the numbers that
/// have one, each once and in the order in which they first came, and for
/// each number the size of its picture, a later one in place of an earlier.
pub open spec fn gathered(marks: Seq<Mark>, n: int) -> (Seq<u32>, Map<u32, (u32, u32)>)
    decreases n,
{
    if 0 < n <= marks.len() {
        let before = gathered(marks, n - 1);
        match marks[n - 1] {
            Some((number, size)) => (
                if before.1.contains_key(number) {
                    before.0
                } else {
                    before.0.push(number)
                },
                before.1.insert(number, size),
            ),
            None => before,
        }
    } else {
        (Seq::empty(), Map::empty())
    }
}

/// The numbers that were gathered all differ, and they are the numbers
/// that have a picture.
pub proof fn lemma_gathered_numbers(marks: Seq<Mark>, n: int)
    ensures
        gathered(marks, n).0.no_duplicates(),
        forall|number: u32|
            gathered(marks, n).1.contains_key(number) <==> gathered(marks, n).0.contains(number),
    decreases n,
{
    if 0 < n <= marks.len() {
        lemma_gathered_numbers(marks, n - 1);
        let before = gathered(marks, n - 1);
        let after = gathered(marks, n);
        if let Some((number, size)) = marks[n - 1] {
            if !before.1.contains_key(number) {
                assert forall|i: int, j: int|
                    0 <= i < after.0.len() && 0 <= j < after.0.len() && i != j implies after.0[i]
                    != after.0[j] by {
                    if i < before.0.len() && j < before.0.len() {
                    } else if i < before.0.len() {
                        assert(before.0.contains(before.0[i]));
                    } else {
                        assert(before.0.contains(before.0[j]));
                    }
                }
            }
            assert forall|other: u32| after.1.contains_key(other) <==> after.0.contains(other) by {
                if before.0.contains(other) {
                    let i = choose|i: int| 0 <= i < before.0.len() && before.0[i] == other;
                    assert(after.0[i] == other);
                }
                if other == number && !before.1.contains_key(number) {
                    assert(after.0[after.0.len() - 1] == other);
                }
            }
        }
    }
}

/// The first `n` of `marks` are all there, and they are all of `marks` or
/// the next one is missing.
pub open spec fn stops_at(marks: Seq<Mark>, n: int) -> bool {
    &&& 0 <= n <= marks.len()
    &&& forall|i: int| 0 <= i < n ==> (#[trigger] marks[i]) is Some
    &&& (n == marks.len() || marks[n] is None)
}

/// Whether `name` is among `names`.
pub open spec fn holds_name(names: Seq<String>, name: Seq<char>) -> bool {
    exists|i: int| 0 <= i < names.len() && (#[trigger] names[i])@ == name
}

/// Whether `name` is among `names`.
fn is_listed(names: &Vec<String>, name: &String) -> (listed: bool)
    ensures
        listed == holds_name(names@, name@),
{
    let mut i: usize = 0;
    while i < names.len()
        invariant
            i <= names.len(),
            forall|j: int| 0 <= j < i ==> (#[trigger] names[j])@ != name@,
        decreases names.len() - i,
    {
        if names[i] == *name {
            return true;
        }
        i = i + 1;
    }
    false
}

/// A theme as it came out of its pictures: drawn, or else the reason why
/// the codec could not draw it.
pub type Drawing = Result<Theme, BannerError>;

/// Whether the files of one directory are a theme: read in their order,
/// ten are pictures of numbers, and they are all there are or the eleventh
/// is none.
pub open spec fn is_theme_directory(files: Seq<AssetFile>) -> bool {
    stops_at(directory_marks(files), 10)
}

/// Whether the files whose path names `theme` are a theme: their pictures
/// are of ten numbers.
pub open spec fn theme_complete(files: Seq<AssetFile>, theme: Seq<char>) -> bool {
    gathered(theme_marks(files, theme), files.len() as int).0.len() == 10
}

/// Whether `drawing` is what the first `n` of `marks` come out as: a theme
/// of their pictures, or a failure of the codec.
pub open spec fn drawn_from(marks: Seq<Mark>, n: int, drawing: Drawing) -> bool {
    match drawing {
        Ok(theme) => theme.wf() && theme.sizes() == gathered(marks, n).1,
        Err(error) => error is Codec || error is TooLarge,
    }
}

/// Marks that are all missing give no picture.
pub proof fn lemma_nothing_gathered(marks: Seq<Mark>, n: int)
    requires
        forall|i: int| 0 <= i < n && i < marks.len() ==> (#[trigger] marks[i]) is None,
    ensures
        gathered(marks, n) == (Seq::<u32>::empty(), Map::<u32, (u32, u32)>::empty()),
    decreases n,
{
    if 0 < n <= marks.len() {
        lemma_nothing_gathered(marks, n - 1);
    }
}

/// The theme that the files of one directory make, read in their order up
/// to the first that is no picture of a number. A directory is a theme
/// exactly where ten files were read, as `is_theme_directory` says; what
/// comes back for one is its theme, or the failure of the codec to draw it.
pub fn theme_from_directory(files: &Vec<AssetFile>) -> (outcome: Option<Drawing>)
    ensures
        outcome is Some <==> is_theme_directory(files@),
        outcome matches Some(drawing) ==> drawn_from(directory_marks(files@), 10, drawing),
{
    let ghost marks = directory_marks(files@);
    let mut pictures = DigitPictures::new();
    let mut i: usize = 0;
    while i < files.len()
        invariant_except_break
            i <= files.len(),
            marks == directory_marks(files@),
            pictures.wf(),
            forall|j: int| 0 <= j < i ==> (#[trigger] marks[j]) is Some,
            (pictures.numbers(), pictures.found()) == gathered(marks, i as int),
        ensures
            stops_at(marks, i as int),
            pictures.wf(),
            (pictures.numbers(), pictures.found()) == gathered(marks, i as int),
        decreases files.len() - i,
    {
        let file = &files[i];
        assert(marks[i as int] == directory_mark(*file));
        let image = match DynamicImageWithFormat::decode(file.bytes.as_slice()) {
            Ok(image) => image,
            Err(_) => {
                break ;
            },
        };
        let digit = match parse_number(file_stem(file_name(file.path.as_str()))) {
            Some(digit) => digit,
            None => {
                break ;
            },
        };
        pictures.insert(digit, image);
        i = i + 1;
    }
    if i != 10 {
        proof {
            if stops_at(marks, 10) {
                if i < 10 {
                    assert(marks[i as int] is Some);
                } else {
                    assert(marks[10] is Some);
                }
            }
        }
        return None;
    }
    Some(Theme::new(pictures))
}

/// The names of `listed`, in their order.
pub open spec fn listed_names<T>(listed: Seq<(String, T)>) -> Seq<Seq<char>> {
    Seq::new(listed.len(), |i: int| listed[i].0@)
}

/// Every theme in `listed` is well formed.
pub open spec fn themes_wf(listed: Seq<(String, Theme)>) -> bool {
    forall|i: int| 0 <= i < listed.len() ==> (#[trigger] listed[i]).1.wf()
}

/// The theme that the files of `files` make whose path names `name`. They
/// are a theme exactly where `theme_complete` says so; what comes back for
/// one is its theme, or the failure of the codec to draw it.
fn theme_from_files(files: &Vec<AssetFile>, name: &String) -> (outcome: Option<Drawing>)
    ensures
        outcome is Some <==> theme_complete(files@, name@),
        outcome matches Some(drawing) ==> drawn_from(
            theme_marks(files@, name@),
            files.len() as int,
            drawing,
        ),
{
    let ghost marks = theme_marks(files@, name@);
    let mut pictures = DigitPictures::new();
    let mut i: usize = 0;
    while i < files.len()
        invariant
            i <= files.len(),
            marks == theme_marks(files@, name@),
            pictures.wf(),
            (pictures.numbers(), pictures.found()) == gathered(marks, i as int),
        decreases files.len() - i,
    {
        let file = &files[i];
        assert(marks[i as int] == theme_mark(*file, name@));
        match parse_asset_path(file.path.as_str()) {
            Some((theme, digit)) => {
                if theme == *name {
                    match DynamicImageWithFormat::decode(file.bytes.as_slice()) {
                        Ok(image) => {
                            pictures.insert(digit, image);
                        },
                        Err(_) => {},
                    }
                }
            },
            None => {},
        }
        i = i + 1;
    }
    if pictures.len() != 10 {
        return None;
    }
    Some(Theme::new(pictures))
}

/// The themes by name, with the directory they were looked for in.
#[derive(Debug, Clone)]
pub struct ThemeManager {
    themes_dir: String,
    names: Vec<String>,
    themes: Vec<Theme>,
}

/// The themes of `listed` by name after the first `n` were taken in, a
/// later one in place of an earlier one of the same name.
pub open spec fn listed_themes(
    onto: Map<Seq<char>, Theme>,
    listed: Seq<(String, Theme)>,
    n: int,
) -> Map<Seq<char>, Theme>
    decreases n,
{
    if 0 < n <= listed.len() {
        listed_themes(onto, listed, n - 1).insert(listed[n - 1].0@, listed[n - 1].1)
    } else {
        onto
    }
}

impl ThemeManager {
    /// The directory that themes were looked for in.
    pub closed spec fn themes_dir(&self) -> Seq<char> {
        self.themes_dir@
    }

    /// The names of the themes, each once, in the order in which they came.
    pub closed spec fn names(&self) -> Seq<Seq<char>> {
        Seq::new(self.names.len() as nat, |i: int| self.names[i]@)
    }

    /// The themes by name.
    pub closed spec fn themes(&self) -> Map<Seq<char>, Theme> {
        Map::new(
            |name: Seq<char>| self.names().contains(name),
            |name: Seq<char>| self.themes[self.names().index_of(name)],
        )
    }

    /// Every name has one theme, which is well formed, and no name is there twice.
    pub closed spec fn wf(&self) -> bool {
        &&& self.names.len() == self.themes.len()
        &&& self.names().no_duplicates()
        &&& forall|i: int| 0 <= i < self.themes.len() ==> (#[trigger] self.themes[i]).wf()
    }

    /// A manager without themes.
    pub fn empty(themes_dir: &str) -> (manager: ThemeManager)
        ensures
            manager.wf(),
            manager.themes_dir() == themes_dir@,
            manager.names() == Seq::<Seq<char>>::empty(),
            manager.themes() == Map::<Seq<char>, Theme>::empty(),
    {
        let manager = ThemeManager {
            themes_dir: themes_dir.to_owned(),
            names: Vec::new(),
            themes: Vec::new(),
        };
        assert(manager.names() =~= Seq::<Seq<char>>::empty());
        assert(manager.themes() =~= Map::<Seq<char>, Theme>::empty());
        manager
    }

    /// The place of `name` among the names.
    fn position(&self, name: &str) -> (place: Option<usize>)
        requires
            self.wf(),
        ensures
            match place {
                Some(at) => at < self.names.len() && self.names[at as int]@ == name@
                    && self.names().contains(name@) && self.names().index_of(name@) == at,
                None => !self.names().contains(name@),
            },
    {
        let mut i: usize = 0;
        while i < self.names.len()
            invariant
                self.wf(),
                i <= self.names.len(),
                forall|j: int| 0 <= j < i ==> (#[trigger] self.names[j])@ != name@,
            decreases self.names.len() - i,
        {
            if same_text(self.names[i].as_str(), name) {
                assert(self.names()[i as int] == name@);
                let ghost found = self.names().index_of(name@);
                assert(0 <= found < self.names().len() && self.names()[found] == name@);
                assert(found == i);
                return Some(i);
            }
            i = i + 1;
        }
        assert forall|j: int| 0 <= j < self.names().len() implies self.names()[j] != name@ by {
            assert(self.names[j]@ != name@);
        }
        None
    }

    /// Takes `theme` in under `name`, in place of any theme of that name.
    pub fn insert(&mut self, name: String, theme: Theme)
        requires
            old(self).wf(),
            theme.wf(),
        ensures
            final(self).wf(),
            final(self).themes_dir() == old(self).themes_dir(),
            final(self).themes() == old(self).themes().insert(name@, theme),
            final(self).names() == if old(self).themes().contains_key(name@) {
                old(self).names()
            } else {
                old(self).names().push(name@)
            },
    {
        let ghost names_before = self.names();
        let ghost themes_before = self.themes();
        match self.position(name.as_str()) {
            Some(at) => {
                self.themes.set(at, theme);
                assert(self.names() =~= names_before);
                assert(self.themes() =~= themes_before.insert(name@, theme)) by {
                    assert forall|other: Seq<char>| self.names().contains(other) implies (
                    #[trigger] self.themes()[other]) == themes_before.insert(name@, theme)[other] by {
                        let i = self.names().index_of(other);
                        assert(self.names()[i] == other);
                    }
                }
            },
            None => {
                self.names.push(name);
                self.themes.push(theme);
                assert(self.names() =~= names_before.push(name@));
                assert(self.themes() =~= themes_before.insert(name@, theme)) by {
                    assert forall|other: Seq<char>| #[trigger]
                        self.names().contains(other) <==> (names_before.contains(other) || other
                            == name@) by {
                        if names_before.contains(other) {
                            let i = names_before.index_of(other);
                            assert(self.names()[i] == other);
                        }
                        if other == name@ {
                            assert(self.names()[names_before.len() as int] == other);
                        }
                    }
                    assert forall|other: Seq<char>| self.names().contains(other) implies (
                    #[trigger] self.themes()[other]) == themes_before.insert(name@, theme)[other] by {
                        let i = self.names().index_of(other);
                        assert(self.names()[i] == other);
                        if other != name@ {
                            let k = names_before.index_of(other);
                            assert(names_before[k] == other);
                            assert(self.names()[k] == other);
                        }
                    }
                }
            },
        }
    }

    /// Takes the themes of `listed` in, in their order.
    pub fn extend(&mut self, listed: Vec<(String, Theme)>)
        requires
            old(self).wf(),
            themes_wf(listed@),
        ensures
            final(self).wf(),
            final(self).themes_dir() == old(self).themes_dir(),
            final(self).themes() == listed_themes(old(self).themes(), listed@, listed.len() as int),
    {
        let ghost all = listed@;
        let mut rest = reversed(listed);
        while rest.len() > 0
            invariant
                self.wf(),
                themes_wf(all),
                self.themes_dir() == old(self).themes_dir(),
                rest.len() <= all.len(),
                rest@ =~= all.reverse().subrange(0, rest.len() as int),
                self.themes() == listed_themes(old(self).themes(), all, all.len() - rest.len()),
            decreases rest.len(),
        {
            let ghost taken = all.len() - rest.len();
            match rest.pop() {
                Some((name, theme)) => {
                    assert((name, theme) == all[taken]);
                    self.insert(name, theme);
                },
                None => {},
            }
        }
    }

    /// The themes of `internal` and, over them, those of `external`, which
    /// were looked for in `themes_dir`.
    pub fn new(themes_dir: &str, internal: Vec<(String, Theme)>, external: Vec<(String, Theme)>) -> (manager:
        ThemeManager)
        requires
            themes_wf(internal@),
            themes_wf(external@),
        ensures
            manager.wf(),
            manager.themes_dir() == themes_dir@,
            manager.themes() == listed_themes(
                listed_themes(Map::empty(), internal@, internal.len() as int),
                external@,
                external.len() as int,
            ),
    {
        let mut manager = ThemeManager::empty(themes_dir);
        manager.extend(internal);
        manager.extend(external);
        manager
    }

    /// The theme called `theme_name`.
    pub fn get(&self, theme_name: &str) -> (outcome: Result<&Theme, BannerError>)
        requires
            self.wf(),
        ensures
            match outcome {
                Ok(theme) => self.themes().contains_key(theme_name@) && *theme == self.themes()[theme_name@]
                    && theme.wf(),
                Err(error) => !self.themes().contains_key(theme_name@) && (error
                    matches BannerError::ThemeNotFound { name } && name@ == theme_name@),
            },
    {
        match self.position(theme_name) {
            Some(at) => Ok(&self.themes[at]),
            None => Err(BannerError::ThemeNotFound { name: theme_name.to_owned() }),
        }
    }

    /// The directory and the names of the themes, one to a line.
    pub fn describe(&self) -> (text: String)
        ensures
            text@ == "ThemeManager: "@ + self.themes_dir() + "\n"@ + name_lines(
                self.names(),
                self.names().len() as int,
            ),
    {
        let mut text: String = "ThemeManager: ".to_owned();
        text.append(self.themes_dir.as_str());
        text.append("\n");
        let ghost head = text@;
        let mut i: usize = 0;
        while i < self.names.len()
            invariant
                i <= self.names.len(),
                text@ == head + name_lines(self.names(), i as int),
            decreases self.names.len() - i,
        {
            assert(self.names()[i as int] == self.names[i as int]@);
            let ghost before = text@;
            text.append("  ");
            text.append(self.names[i].as_str());
            text.append("\n");
            assert(text@ =~= head + (name_lines(self.names(), i as int) + "  "@ + self.names()[i as int]
                + "\n"@));
            i = i + 1;
        }
        text
    }

    /// The themes among the files that were built into the program. A file
    /// counts for the theme that its path names. Each name whose files are a
    /// theme is listed once, and no other name is; with it stands the theme,
    /// or the failure of the codec to draw it.
    pub fn load_themes_from_internal(files: &Vec<AssetFile>) -> (listed: Vec<(String, Drawing)>)
        ensures
            listed_names(listed@).no_duplicates(),
            forall|theme: Seq<char>|
                #![trigger theme_complete(files@, theme)]
                #![trigger listed_names(listed@).contains(theme)]
                listed_names(listed@).contains(theme) <==> theme_complete(files@, theme),
            forall|k: int|
                0 <= k < listed.len() ==> drawn_from(
                    theme_marks(files@, (#[trigger] listed[k]).0@),
                    files.len() as int,
                    listed[k].1,
                ),
    {
        // every theme that a path names, once, in the order in which they come
        let mut names: Vec<String> = Vec::new();
        let mut i: usize = 0;
        while i < files.len()
            invariant
                i <= files.len(),
                forall|a: int, b: int| 0 <= a < b < names.len() ==> names[a]@ != names[b]@,
                forall|j: int|
                    0 <= j < i ==> (asset_of((#[trigger] files[j]).path@) matches Some(asset)
                        ==> holds_name(names@, asset.0)),
            decreases files.len() - i,
        {
            let ghost before = names@;
            match parse_asset_path(files[i].path.as_str()) {
                Some((theme, _)) => {
                    if !is_listed(&names, &theme) {
                        names.push(theme);
                        assert(names[names.len() - 1]@ == theme@);
                    }
                },
                None => {},
            }
            assert forall|j: int| 0 <= j < i + 1 implies (asset_of((#[trigger] files[j]).path@)
                matches Some(asset) ==> holds_name(names@, asset.0)) by {
                if let Some(asset) = asset_of(files[j].path@) {
                    if j < i {
                        assert(holds_name(before, asset.0));
                        let at = choose|at: int| 0 <= at < before.len() && before[at]@ == asset.0;
                        assert(names[at]@ == asset.0);
                    }
                }
            }
            i = i + 1;
        }
        let mut listed: Vec<(String, Drawing)> = Vec::new();
        let mut a: usize = 0;
        while a < names.len()
            invariant
                a <= names.len(),
                forall|x: int, y: int| 0 <= x < y < names.len() ==> names[x]@ != names[y]@,
                forall|k: int|
                    0 <= k < listed.len() ==> exists|b: int|
                        0 <= b < a && names[b]@ == (#[trigger] listed[k]).0@,
                listed_names(listed@).no_duplicates(),
                forall|b: int|
                    0 <= b < a && theme_complete(files@, (#[trigger] names[b])@) ==> listed_names(
                        listed@,
                    ).contains(names[b]@),
                forall|k: int|
                    0 <= k < listed.len() ==> theme_complete(files@, (#[trigger] listed[k]).0@),
                forall|k: int|
                    0 <= k < listed.len() ==> drawn_from(
                        theme_marks(files@, (#[trigger] listed[k]).0@),
                        files.len() as int,
                        listed[k].1,
                    ),
            decreases names.len() - a,
        {
            let ghost before = listed@;
            match theme_from_files(files, &names[a]) {
                Some(drawing) => {
                    listed.push((names[a].clone(), drawing));
                    let ghost last = listed.len() - 1;
                    assert(listed[last].0@ == names[a as int]@);
                    assert forall|k: int| 0 <= k < listed.len() implies exists|b: int|
                        0 <= b < a + 1 && names[b]@ == (#[trigger] listed[k]).0@ by {
                        if k < before.len() {
                            let b = choose|b: int| 0 <= b < a && names[b]@ == before[k].0@;
                            assert(names[b]@ == listed[k].0@);
                        } else {
                            assert(names[a as int]@ == listed[k].0@);
                        }
                    }
                    assert forall|x: int, y: int|
                        0 <= x < listed_names(listed@).len() && 0 <= y < listed_names(
                            listed@,
                        ).len() && x != y implies listed_names(listed@)[x] != listed_names(
                        listed@,
                    )[y] by {
                        if x < before.len() && y < before.len() {
                            assert(listed_names(before)[x] != listed_names(before)[y]);
                        } else if x < before.len() {
                            let b = choose|b: int| 0 <= b < a && names[b]@ == before[x].0@;
                            assert(names[b]@ != names[a as int]@);
                        } else {
                            let b = choose|b: int| 0 <= b < a && names[b]@ == before[y].0@;
                            assert(names[b]@ != names[a as int]@);
                        }
                    }
                    assert forall|b: int|
                        0 <= b < a + 1 && theme_complete(
                            files@,
                            (#[trigger] names[b])@,
                        ) implies listed_names(listed@).contains(names[b]@) by {
                        if b < a {
                            let k = choose|k: int|
                                0 <= k < before.len() && listed_names(before)[k] == names[b]@;
                            assert(listed_names(listed@)[k] == names[b]@);
                        } else {
                            assert(listed_names(listed@)[last] == names[b]@);
                        }
                    }
                },
                None => {},
            }
            a = a + 1;
        }
        proof {
            assert forall|theme: Seq<char>|
                #![trigger theme_complete(files@, theme)]
                #![trigger listed_names(listed@).contains(theme)]
                listed_names(listed@).contains(theme) <==> theme_complete(files@, theme) by {
                if listed_names(listed@).contains(theme) {
                    let k = choose|k: int|
                        0 <= k < listed_names(listed@).len() && listed_names(listed@)[k] == theme;
                    assert(theme_complete(files@, listed[k].0@));
                }
                if theme_complete(files@, theme) {
                    let marks = theme_marks(files@, theme);
                    if forall|j: int| 0 <= j < marks.len() ==> (#[trigger] marks[j]) is None {
                        lemma_nothing_gathered(marks, files.len() as int);
                    }
                    let j = choose|j: int| 0 <= j < marks.len() && (#[trigger] marks[j]) is Some;
                    assert(asset_of(files[j].path@) is Some);
                    assert(holds_name(names@, theme));
                    let b = choose|b: int| 0 <= b < names.len() && names[b]@ == theme;
                    assert(theme_complete(files@, names[b]@));
                }
            }
        }
        listed
    }

    /// The themes among `directories`. Each directory whose files are a
    /// theme is listed under its name, in the order of the directories, and
    /// nothing else is; with the name stands the theme, or the failure of
    /// the codec to draw it.
    pub fn load_themes_from_external(directories: &Vec<ThemeDirectory>) -> (listed: Vec<
        (String, Drawing),
    >)
        ensures
            listed_names(listed@) == theme_directory_names(
                directories@,
                directories.len() as int,
            ),
            forall|k: int|
                0 <= k < listed.len() ==> is_drawing_among(directories@, #[trigger] listed[k]),
    {
        let mut listed: Vec<(String, Drawing)> = Vec::new();
        let mut j: usize = 0;
        while j < directories.len()
            invariant
                j <= directories.len(),
                listed_names(listed@) == theme_directory_names(directories@, j as int),
                forall|k: int|
                    0 <= k < listed.len() ==> is_drawing_among(directories@, #[trigger] listed[k]),
            decreases directories.len() - j,
        {
            let ghost before = listed@;
            match theme_from_directory(&directories[j].files) {
                Some(drawing) => {
                    listed.push((directories[j].name.clone(), drawing));
                    assert(is_drawing_of(directories[j as int], listed[listed.len() - 1]));
                    assert forall|k: int| 0 <= k < listed.len() implies is_drawing_among(
                        directories@,
                        #[trigger] listed[k],
                    ) by {
                        if k < before.len() {
                            assert(listed[k] == before[k]);
                        }
                    }
                    assert(listed_names(listed@) =~= listed_names(before).push(
                        directories[j as int].name@,
                    ));
                },
                None => {},
            }
            j = j + 1;
        }
        listed
    }
}

/// The themes among the first `n` of `listed` that were drawn, in their order.
pub open spec fn drawn_themes(listed: Seq<(String, Drawing)>, n: int) -> Seq<(String, Theme)>
    decreases n,
{
    if 0 < n <= listed.len() {
        match listed[n - 1].1 {
            Ok(theme) => drawn_themes(listed, n - 1).push((listed[n - 1].0, theme)),
            Err(_) => drawn_themes(listed, n - 1),
        }
    } else {
        Seq::empty()
    }
}

/// The failures among the first `n` of `listed`, in their order.
pub open spec fn failed_drawings(listed: Seq<(String, Drawing)>, n: int) -> Seq<
    (String, BannerError),
>
    decreases n,
{
    if 0 < n <= listed.len() {
        match listed[n - 1].1 {
            Ok(_) => failed_drawings(listed, n - 1),
            Err(error) => failed_drawings(listed, n - 1).push((listed[n - 1].0, error)),
        }
    } else {
        Seq::empty()
    }
}

/// Every theme that was drawn in `listed` is well formed.
pub open spec fn drawings_wf(listed: Seq<(String, Drawing)>) -> bool {
    forall|k: int|
        0 <= k < listed.len() ==> ((#[trigger] listed[k]).1 matches Ok(theme) ==> theme.wf())
}

/// Parts `listed` into the themes that were drawn and the failures, each
/// under its name and in the order of `listed`.
pub fn split_drawings(listed: Vec<(String, Drawing)>) -> (parts: (
    Vec<(String, Theme)>,
    Vec<(String, BannerError)>,
))
    ensures
        parts.0@ == drawn_themes(listed@, listed.len() as int),
        parts.1@ == failed_drawings(listed@, listed.len() as int),
        drawings_wf(listed@) ==> themes_wf(parts.0@),
{
    let ghost all = listed@;
    let mut rest = reversed(listed);
    let mut themes: Vec<(String, Theme)> = Vec::new();
    let mut failures: Vec<(String, BannerError)> = Vec::new();
    while rest.len() > 0
        invariant
            rest.len() <= all.len(),
            rest@ =~= all.reverse().subrange(0, rest.len() as int),
            themes@ == drawn_themes(all, all.len() - rest.len()),
            failures@ == failed_drawings(all, all.len() - rest.len()),
            drawings_wf(all) ==> themes_wf(themes@),
        decreases rest.len(),
    {
        let ghost taken = all.len() - rest.len();
        match rest.pop() {
            Some((name, drawing)) => {
                assert((name, drawing) == all[taken]);
                match drawing {
                    Ok(theme) => {
                        themes.push((name, theme));
                    },
                    Err(error) => {
                        failures.push((name, error));
                    },
                }
            },
            None => {},
        }
    }
    (themes, failures)
}

/// The names of those among the first `n` of `directories` whose files are
/// a theme, in their order.
pub open spec fn theme_directory_names(directories: Seq<ThemeDirectory>, n: int) -> Seq<Seq<char>>
    decreases n,
{
    if 0 < n <= directories.len() {
        if is_theme_directory(directories[n - 1].files@) {
            theme_directory_names(directories, n - 1).push(directories[n - 1].name@)
        } else {
            theme_directory_names(directories, n - 1)
        }
    } else {
        Seq::empty()
    }
}

/// `entry` is what one of `directories` came out as.
pub open spec fn is_drawing_among(directories: Seq<ThemeDirectory>, entry: (String, Drawing)) -> bool {
    exists|j: int| 0 <= j < directories.len() && is_drawing_of(#[trigger] directories[j], entry)
}

/// `entry` is what the files of `directory`, which are a theme, came out
/// as, under its name.
pub open spec fn is_drawing_of(directory: ThemeDirectory, entry: (String, Drawing)) -> bool {
    &&& entry.0@ == directory.name@
    &&& is_theme_directory(directory.files@)
    &&& drawn_from(directory_marks(directory.files@), 10, entry.1)
}

/// The first `n` of `names`, each on a line of its own behind two spaces.
pub open spec fn name_lines(names: Seq<Seq<char>>, n: int) -> Seq<char>
    decreases n,
{
    if 0 < n <= names.len() {
        name_lines(names, n - 1) + "  "@ + names[n - 1] + "\n"@
    } else {
        Seq::empty()
    }
}

} // verus!
