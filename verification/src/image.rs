//! The image configuration and the generation of the fragment.

use vstd::prelude::*;
use vstd::string::*;
use crate::attributes::{
    attribute_value, attributes_view, lemma_ordered_names_unique, lemma_with_attribute_commutes,
    lemma_with_attribute_ordered, ordered, set_attribute, value_of, with_attribute, Attributes,
};
use crate::codec::{base64_mime, base64_mime_encode, max_encodable, png_encode, png_image};
use crate::error::DocimaError;
use crate::markup::{
    attributes_text, image_attributes, image_element, image_text, lemma_image_round_trip,
    lemma_wrapped_image_round_trip, lemma_wrapper_round_trip, push_attributes, read_attributes,
    readable, wrap_element, wrapped_text,
};
use crate::paths::{joined_path, root_path};
use crate::reader::parse_attributes;

verus! {

/// What an [`ImageFile`] stands for.
pub struct ImageSpec {
    /// Width in pixels; zero while unset.
    pub width: u32,
    /// Height in pixels; zero while unset.
    pub height: u32,
    /// Output path below the project root; empty while unset.
    pub path: Seq<char>,
    /// Attributes of the `<img>` tag, in the order of their names.
    pub attributes: Attributes,
    /// Name of the wrapper tag; empty for none.
    pub wrapper: Seq<char>,
    /// Attributes of the wrapper's opening tag, in the order of their names.
    pub wrapper_attributes: Attributes,
    /// Whether an existing output file is replaced.
    pub overwrite: bool,
}

/// What the custom error says where an image is too large to be encoded.
pub open spec fn too_large_text() -> Seq<char> {
    "the image is too large to encode"@
}

impl ImageSpec {
    /// Both attribute lists are in the order of their names, so that no name
    /// occurs twice. Every [`ImageFile`] is built so.
    pub open spec fn in_order(self) -> bool {
        ordered(self.attributes) && ordered(self.wrapper_attributes)
    }

    /// The configuration before anything is set.
    pub open spec fn unset() -> ImageSpec {
        ImageSpec {
            width: 0,
            height: 0,
            path: Seq::empty(),
            attributes: Seq::empty(),
            wrapper: Seq::empty(),
            wrapper_attributes: Seq::empty(),
            overwrite: false,
        }
    }

    /// With one attribute of the `<img>` tag set.
    pub open spec fn with_attr(self, name: Seq<char>, value: Seq<char>) -> ImageSpec {
        ImageSpec { attributes: with_attribute(self.attributes, name, value), ..self }
    }

    /// With one attribute of the wrapper tag set.
    pub open spec fn with_wrapper_attr(self, name: Seq<char>, value: Seq<char>) -> ImageSpec {
        ImageSpec {
            wrapper_attributes: with_attribute(self.wrapper_attributes, name, value),
            ..self
        }
    }

    /// The name of the first required field that is unset, in the order
    /// width, height, path.
    pub open spec fn missing_field(self) -> Option<Seq<char>> {
        if self.width == 0 {
            Some("width"@)
        } else if self.height == 0 {
            Some("height"@)
        } else if self.path.len() == 0 {
            Some("path"@)
        } else {
            None
        }
    }

    /// Whether the wrapper's attributes suit its tag: `href` and `target`
    /// belong to an anchor (`a`) alone.
    pub open spec fn anchor_attributes_fit(self) -> bool {
        self.wrapper == "a"@ || (value_of(self.wrapper_attributes, "href"@) is None && value_of(
            self.wrapper_attributes,
            "target"@,
        ) is None)
    }

    /// The size of the pixel buffer: three bytes per pixel.
    pub open spec fn buffer_len(self) -> nat {
        (self.width * self.height * 3) as nat
    }

    /// Pixels that the encoder takes: both dimensions are set, and there are
    /// three bytes for each pixel.
    pub open spec fn well_sized(self, pixels: Seq<u8>) -> bool {
        self.width > 0 && self.height > 0 && pixels.len() == self.buffer_len()
    }

    /// The buffer as the pixel-filling function receives it: all zero.
    pub open spec fn blank_buffer(self) -> Seq<u8> {
        Seq::new(self.buffer_len(), |i: int| 0u8)
    }

    /// Whether the fragment is to be generated, given whether the output file
    /// already exists.
    pub open spec fn needs_generation(self, exists: bool) -> bool {
        self.overwrite || !exists
    }

    /// The fragment around an encoded image: the `<img>` element, inside the
    /// wrapper where one is set.
    pub open spec fn fragment(self, encoded: Seq<char>) -> Seq<char> {
        wrapped_text(self.wrapper, self.wrapper_attributes, image_text(encoded, self.attributes))
    }

    /// Where the `<img>` element starts in the fragment, in characters.
    pub open spec fn image_start(self) -> nat {
        if self.wrapper.len() == 0 {
            0
        } else {
            self.wrapper.len() + attributes_text(self.wrapper_attributes).len() + 2
        }
    }

    /// `res` is what encoding `pixels` comes to: the fragment around the
    /// base64 text of the PNG image, an encoding error where the encoder
    /// refuses the pixels, a custom error with the text of
    /// [`too_large_text`] where the PNG image is too long for the base64
    /// encoder.
    ///
    /// The encoder takes the pixels exactly where they are [`Self::well_sized`],
    /// and the base64 text holds no double quote.
    pub open spec fn encodes_to<E>(self, pixels: Seq<u8>, res: Result<String, DocimaError<E>>) -> bool {
        &&& png_image(pixels, self.width, self.height) is Some <==> self.well_sized(pixels)
        &&& match png_image(pixels, self.width, self.height) {
            None => res matches Err(DocimaError::PngEncodingError(_)),
            Some(png) => if png.len() <= max_encodable() {
                &&& res matches Ok(text) && text@ == self.fragment(base64_mime(png))
                &&& !base64_mime(png).contains('"')
            } else {
                res matches Err(DocimaError::Custom(text)) && text@ == too_large_text()
            },
        }
    }
}

/// An image file generator.
///
/// The minimum required setup methods are `width`, `height` and `path`.
pub struct ImageFile {
    width: u32,
    height: u32,
    path: String,
    attributes: Vec<(String, String)>,
    wrapper: String,
    wrapper_attributes: Vec<(String, String)>,
    overwrite: bool,
}

impl View for ImageFile {
    type V = ImageSpec;

    closed spec fn view(&self) -> ImageSpec {
        ImageSpec {
            width: self.width,
            height: self.height,
            path: self.path@,
            attributes: attributes_view(self.attributes@),
            wrapper: self.wrapper@,
            wrapper_attributes: attributes_view(self.wrapper_attributes@),
            overwrite: self.overwrite,
        }
    }
}

impl Default for ImageFile {
    /// The configuration with nothing set.
    fn default() -> (res: Self)
        ensures
            res@ == ImageSpec::unset(),
    {
        ImageFile::new()
    }
}

impl ImageFile {
    #[verifier::type_invariant]
    spec fn built_in_order(self) -> bool {
        self@.in_order()
    }

    /// Start configuring a new image.
    pub fn new() -> (res: Self)
        ensures
            res@ == ImageSpec::unset(),
            res@.in_order(),
    {
        let res = ImageFile {
            width: 0,
            height: 0,
            path: String::new(),
            attributes: Vec::new(),
            wrapper: String::new(),
            wrapper_attributes: Vec::new(),
            overwrite: false,
        };
        assert(res@.attributes =~= Seq::empty());
        assert(res@.wrapper_attributes =~= Seq::empty());
        res
    }

    /// Sets the width of the image.
    pub fn width(self, width: u32) -> (res: Self)
        ensures
            res@ == (ImageSpec { width: width, ..self@ }),
            res@.in_order(),
    {
        proof {
            use_type_invariant(&self);
        }
        ImageFile {
            width,
            height: self.height,
            path: self.path,
            attributes: self.attributes,
            wrapper: self.wrapper,
            wrapper_attributes: self.wrapper_attributes,
            overwrite: self.overwrite,
        }
    }

    /// Sets the height of the image.
    pub fn height(self, height: u32) -> (res: Self)
        ensures
            res@ == (ImageSpec { height: height, ..self@ }),
            res@.in_order(),
    {
        proof {
            use_type_invariant(&self);
        }
        ImageFile {
            width: self.width,
            height,
            path: self.path,
            attributes: self.attributes,
            wrapper: self.wrapper,
            wrapper_attributes: self.wrapper_attributes,
            overwrite: self.overwrite,
        }
    }

    /// Sets the name and path of the output file, including the path from the
    /// project's root.
    pub fn path(self, path: &str) -> (res: Self)
        ensures
            res@ == (ImageSpec { path: path@, ..self@ }),
            res@.in_order(),
    {
        proof {
            use_type_invariant(&self);
        }
        ImageFile {
            width: self.width,
            height: self.height,
            path: String::from_str(path),
            attributes: self.attributes,
            wrapper: self.wrapper,
            wrapper_attributes: self.wrapper_attributes,
            overwrite: self.overwrite,
        }
    }

    /// Sets one attribute of the `<img>` tag; a later value for the same name
    /// replaces the earlier one.
    pub fn attr(self, name: &str, value: &str) -> (res: Self)
        ensures
            res@ == self@.with_attr(name@, value@),
            res@.in_order(),
    {
        proof {
            use_type_invariant(&self);
            lemma_with_attribute_ordered(self@.attributes, name@, value@);
        }
        let mut attributes = self.attributes;
        set_attribute(&mut attributes, name, value);
        ImageFile {
            width: self.width,
            height: self.height,
            path: self.path,
            attributes,
            wrapper: self.wrapper,
            wrapper_attributes: self.wrapper_attributes,
            overwrite: self.overwrite,
        }
    }

    /// Sets the `wrapper` HTML tag around `<img>`; an empty name means none.
    pub fn wrapper(self, wrapper: &str) -> (res: Self)
        ensures
            res@ == (ImageSpec { wrapper: wrapper@, ..self@ }),
            res@.in_order(),
    {
        proof {
            use_type_invariant(&self);
        }
        ImageFile {
            width: self.width,
            height: self.height,
            path: self.path,
            attributes: self.attributes,
            wrapper: String::from_str(wrapper),
            wrapper_attributes: self.wrapper_attributes,
            overwrite: self.overwrite,
        }
    }

    /// Sets one attribute of the wrapper's opening tag; a later value for the
    /// same name replaces the earlier one.
    pub fn wrapper_attr(self, name: &str, value: &str) -> (res: Self)
        ensures
            res@ == self@.with_wrapper_attr(name@, value@),
            res@.in_order(),
    {
        proof {
            use_type_invariant(&self);
            lemma_with_attribute_ordered(self@.wrapper_attributes, name@, value@);
        }
        let mut wrapper_attributes = self.wrapper_attributes;
        set_attribute(&mut wrapper_attributes, name, value);
        ImageFile {
            width: self.width,
            height: self.height,
            path: self.path,
            attributes: self.attributes,
            wrapper: self.wrapper,
            wrapper_attributes,
            overwrite: self.overwrite,
        }
    }

    /// Sets whether an existing output file is replaced.
    ///
    /// If `false` the image will only be generated if the chosen output file
    /// doesn't already exist.
    /// If `true` the image will always be generated, and the file overwritten.
    pub fn overwrite(self, overwrite: bool) -> (res: Self)
        ensures
            res@ == (ImageSpec { overwrite: overwrite, ..self@ }),
            res@.in_order(),
    {
        proof {
            use_type_invariant(&self);
        }
        ImageFile {
            width: self.width,
            height: self.height,
            path: self.path,
            attributes: self.attributes,
            wrapper: self.wrapper,
            wrapper_attributes: self.wrapper_attributes,
            overwrite,
        }
    }
}

/// Setters for the common attributes, each a short form of `attr` or
/// `wrapper_attr` with the attribute's name.
impl ImageFile {
    /// Sets the `<img>` `alt` attribute.
    pub fn alt(self, alt: &str) -> (res: Self)
        ensures
            res@ == self@.with_attr("alt"@, alt@),
            res@.in_order(),
    {
        self.attr("alt", alt)
    }

    /// Sets the `<img>` `title` attribute.
    pub fn title(self, title: &str) -> (res: Self)
        ensures
            res@ == self@.with_attr("title"@, title@),
            res@.in_order(),
    {
        self.attr("title", title)
    }

    /// Sets the `<img>` `id` attribute.
    pub fn id(self, id: &str) -> (res: Self)
        ensures
            res@ == self@.with_attr("id"@, id@),
            res@.in_order(),
    {
        self.attr("id", id)
    }

    /// Sets the `<img>` `class` attribute.
    pub fn class(self, class: &str) -> (res: Self)
        ensures
            res@ == self@.with_attr("class"@, class@),
            res@.in_order(),
    {
        self.attr("class", class)
    }

    /// Sets the `<img>` `style` attribute.
    pub fn style(self, style: &str) -> (res: Self)
        ensures
            res@ == self@.with_attr("style"@, style@),
            res@.in_order(),
    {
        self.attr("style", style)
    }

    /// Sets the wrapper tag `alt` attribute.
    pub fn wrapper_alt(self, alt: &str) -> (res: Self)
        ensures
            res@ == self@.with_wrapper_attr("alt"@, alt@),
            res@.in_order(),
    {
        self.wrapper_attr("alt", alt)
    }

    /// Sets the wrapper tag `title` attribute.
    pub fn wrapper_title(self, title: &str) -> (res: Self)
        ensures
            res@ == self@.with_wrapper_attr("title"@, title@),
            res@.in_order(),
    {
        self.wrapper_attr("title", title)
    }

    /// Sets the wrapper tag `id` attribute.
    pub fn wrapper_id(self, id: &str) -> (res: Self)
        ensures
            res@ == self@.with_wrapper_attr("id"@, id@),
            res@.in_order(),
    {
        self.wrapper_attr("id", id)
    }

    /// Sets the wrapper tag `class` attribute.
    pub fn wrapper_class(self, class: &str) -> (res: Self)
        ensures
            res@ == self@.with_wrapper_attr("class"@, class@),
            res@.in_order(),
    {
        self.wrapper_attr("class", class)
    }

    /// Sets the wrapper tag `style` attribute.
    pub fn wrapper_style(self, style: &str) -> (res: Self)
        ensures
            res@ == self@.with_wrapper_attr("style"@, style@),
            res@.in_order(),
    {
        self.wrapper_attr("style", style)
    }

    /// Sets the wrapper tag `href` attribute, as an anchor (`a`) takes it.
    pub fn wrapper_href(self, href: &str) -> (res: Self)
        ensures
            res@ == self@.with_wrapper_attr("href"@, href@),
            res@.in_order(),
    {
        self.wrapper_attr("href", href)
    }

    /// Sets the wrapper tag `target` attribute, as an anchor (`a`) takes it.
    pub fn wrapper_target(self, target: &str) -> (res: Self)
        ensures
            res@ == self@.with_wrapper_attr("target"@, target@),
            res@.in_order(),
    {
        self.wrapper_attr("target", target)
    }
}

/// Generation.
impl ImageFile {
    /// The name of the first required field that was never set, if any, in
    /// the order width, height, path.
    pub fn missing_field(&self) -> (res: Option<String>)
        ensures
            match res {
                Some(name) => self@.missing_field() == Some(name@),
                None => self@.missing_field() is None,
            },
    {
        if self.width == 0 {
            Some(String::from_str("width"))
        } else if self.height == 0 {
            Some(String::from_str("height"))
        } else if self.path.as_str().unicode_len() == 0 {
            Some(String::from_str("path"))
        } else {
            None
        }
    }

    /// Checks that `href` and `target` are set on the wrapper only where it is
    /// an anchor (`a`). Generation does not depend on this: a caller may ask.
    pub fn anchor_attributes_fit(&self) -> (res: bool)
        ensures
            res == self@.anchor_attributes_fit(),
    {
        let anchor: String = String::from_str("a");
        if self.wrapper == anchor {
            return true;
        }
        attribute_value(&self.wrapper_attributes, "href").is_none() && attribute_value(
            &self.wrapper_attributes,
            "target",
        ).is_none()
    }

    /// The width and the height as they were set; zero where unset.
    pub fn dimensions(&self) -> (res: (u32, u32))
        ensures
            res == (self@.width, self@.height),
    {
        (self.width, self.height)
    }

    /// The output path below the project root `root`.
    pub fn target_path(&self, root: &str) -> (res: String)
        ensures
            res@ == joined_path(root@, self@.path),
    {
        root_path(root, self.path.as_str())
    }

    /// Whether the fragment is to be generated, given whether the output file
    /// already exists: an existing file is left alone unless `overwrite` is
    /// set.
    pub fn needs_generation(&self, exists: bool) -> (res: bool)
        ensures
            res == self@.needs_generation(exists),
    {
        self.overwrite || !exists
    }

    /// A fresh pixel buffer: three zero bytes for each pixel.
    pub fn new_buffer(&self) -> (res: Vec<u8>)
        requires
            self@.buffer_len() <= usize::MAX,
        ensures
            res@ == self@.blank_buffer(),
            res@.len() == self@.width * self@.height * 3,
    {
        let width: usize = self.width as usize;
        let height: usize = self.height as usize;
        assert(width * height <= width * height * 3) by (nonlinear_arith);
        let res: Vec<u8> = vec![0u8; width * height * 3];
        assert(res@ =~= self@.blank_buffer());
        res
    }

    /// Compresses filled pixels as PNG, encodes the image as base64 and
    /// builds the fragment around it.
    pub fn encode_fragment<E>(&self, pixels: &Vec<u8>) -> (res: Result<String, DocimaError<E>>)
        requires
            self@.buffer_len() <= usize::MAX,
        ensures
            self@.encodes_to(pixels@, res),
    {
        match png_encode(pixels, self.width, self.height) {
            Err(error) => Err(DocimaError::PngEncodingError(error)),
            Ok(png) => {
                if png.len() > usize::MAX / 512 {
                    return Err(
                        DocimaError::Custom(String::from_str("the image is too large to encode")),
                    );
                }
                let encoded: String = base64_mime_encode(&png);
                let image: String = image_element(encoded.as_str(), &self.attributes);
                Ok(wrap_element(self.wrapper.as_str(), &self.wrapper_attributes, image))
            },
        }
    }

    /// Reads the attributes of the `<img>` element back from a fragment that
    /// was generated for this configuration: they start four characters
    /// after the element does.
    pub fn read_image_attributes(&self, fragment: &str) -> (res: Vec<(String, String)>)
        ensures
            self@.image_start() + 4 <= fragment@.len() ==> attributes_view(res@)
                == read_attributes(fragment@.skip(self@.image_start() as int + 4)),
            self@.image_start() + 4 > fragment@.len() ==> res@.len() == 0,
    {
        let mut start: usize = 0;
        if self.wrapper.as_str().unicode_len() > 0 {
            let mut opening: String = String::from_str("<");
            opening.append(self.wrapper.as_str());
            push_attributes(&mut opening, &self.wrapper_attributes);
            opening.append(">");
            proof {
                reveal_strlit("<");
                reveal_strlit(">");
            }
            start = opening.as_str().unicode_len();
        }
        let len: usize = fragment.unicode_len();
        if len < 4 || start > len - 4 {
            return Vec::new();
        }
        parse_attributes(fragment, start + 4)
    }

    /// Reads the attributes of the wrapper's opening tag back from a fragment
    /// that was generated for this configuration; none where no wrapper is
    /// set.
    pub fn read_wrapper_attributes(&self, fragment: &str) -> (res: Vec<(String, String)>)
        ensures
            0 < self@.wrapper.len() < fragment@.len() ==> attributes_view(res@) == read_attributes(
                fragment@.skip(1 + self@.wrapper.len() as int),
            ),
            self@.wrapper.len() == 0 || self@.wrapper.len() >= fragment@.len() ==> res@.len()
                == 0,
    {
        let tag_len: usize = self.wrapper.as_str().unicode_len();
        if tag_len == 0 || tag_len >= fragment.unicode_len() {
            return Vec::new();
        }
        parse_attributes(fragment, tag_len + 1)
    }

    /// Finishes the image: checks the required fields, calls the generator
    /// function on a zeroed buffer of three bytes per pixel, and returns the
    /// fragment built from what the generator drew.
    ///
    /// A missing field is reported before the generator is called, and no
    /// buffer is made for it. An error of the generator is handed on as it
    /// came.
    pub fn generate<E, F: Fn(&mut Vec<u8>, u32, u32) -> Result<(), E>>(self, generator: F) -> (res:
        Result<String, DocimaError<E>>)
        requires
            self@.missing_field() is None ==> self@.buffer_len() <= usize::MAX,
            self@.missing_field() is None ==> forall|buffer: &mut Vec<u8>|
                (*buffer)@ == self@.blank_buffer() ==> call_requires(
                    generator,
                    (buffer, self@.width, self@.height),
                ),
        ensures
            self@.missing_field() matches Some(name) ==> (res matches Err(
                DocimaError::MissingField(field),
            ) && field@ == name),
            self@.missing_field() is None ==> exists|buffer: &mut Vec<u8>, out: Result<(), E>|
                (*buffer)@ == self@.blank_buffer() && #[trigger] call_ensures(
                    generator,
                    (buffer, self@.width, self@.height),
                    out,
                ) && (out matches Err(error) ==> (res matches Err(DocimaError::StdError(handed))
                    && handed == error)) && (out is Ok ==> self@.encodes_to(
                    (*final(buffer))@,
                    res,
                )),
    {
        match self.missing_field() {
            Some(field) => Err(DocimaError::MissingField(field)),
            None => {
                let mut buffer: Vec<u8> = self.new_buffer();
                match generator(&mut buffer, self.width, self.height) {
                    Err(error) => Err(DocimaError::StdError(error)),
                    Ok(()) => self.encode_fragment(&buffer),
                }
            },
        }
    }

    /// Finishes the image unless the output file is to be left alone: with
    /// the required fields set, an existing file and `overwrite` unset, the
    /// result is `None`, and the generator is not called. In every other
    /// case the result is that of [`Self::generate`].
    pub fn generate_if_needed<E, F: Fn(&mut Vec<u8>, u32, u32) -> Result<(), E>>(
        self,
        exists: bool,
        generator: F,
    ) -> (res: Option<Result<String, DocimaError<E>>>)
        requires
            self@.missing_field() is None && self@.needs_generation(exists) ==> self@.buffer_len()
                <= usize::MAX,
            self@.missing_field() is None && self@.needs_generation(exists) ==> forall|
                buffer: &mut Vec<u8>,
            |
                (*buffer)@ == self@.blank_buffer() ==> call_requires(
                    generator,
                    (buffer, self@.width, self@.height),
                ),
        ensures
            self@.missing_field() matches Some(name) ==> (res matches Some(
                Err(DocimaError::MissingField(field)),
            ) && field@ == name),
            self@.missing_field() is None && !self@.needs_generation(exists) ==> res is None,
            self@.missing_field() is None && self@.needs_generation(exists) ==> (res matches Some(
                made,
            ) && exists|buffer: &mut Vec<u8>, out: Result<(), E>|
                (*buffer)@ == self@.blank_buffer() && #[trigger] call_ensures(
                    generator,
                    (buffer, self@.width, self@.height),
                    out,
                ) && (out matches Err(error) ==> (made matches Err(DocimaError::StdError(handed))
                    && handed == error)) && (out is Ok ==> self@.encodes_to(
                    (*final(buffer))@,
                    made,
                ))),
    {
        match self.missing_field() {
            Some(field) => Some(Err(DocimaError::MissingField(field))),
            None => {
                if self.needs_generation(exists) {
                    Some(self.generate(generator))
                } else {
                    None
                }
            },
        }
    }
}

/// A missing required field is named after exactly that field: the three
/// names differ, and each is given for its own field alone.
pub proof fn lemma_missing_field_named(spec: ImageSpec)
    ensures
        spec.missing_field() == Some("width"@) <==> spec.width == 0,
        spec.missing_field() == Some("height"@) <==> spec.width != 0 && spec.height == 0,
        spec.missing_field() == Some("path"@) <==> spec.width != 0 && spec.height != 0
            && spec.path.len() == 0,
        spec.missing_field() is None <==> spec.width != 0 && spec.height != 0 && spec.path.len()
            != 0,
{
    reveal_strlit("width");
    reveal_strlit("height");
    reveal_strlit("path");
    assert("width"@.len() == 5 && "height"@.len() == 6 && "path"@.len() == 4);
}

/// The same configuration and the same pixels always come to the same
/// outcome: both encodings succeed or both fail, and two fragments are equal
/// character by character.
pub proof fn lemma_same_pixels_same_fragment<E>(
    spec: ImageSpec,
    pixels: Seq<u8>,
    first: Result<String, DocimaError<E>>,
    second: Result<String, DocimaError<E>>,
)
    requires
        spec.encodes_to(pixels, first),
        spec.encodes_to(pixels, second),
    ensures
        first is Ok <==> second is Ok,
        first is Ok && second is Ok ==> first->Ok_0@ == second->Ok_0@,
{
}

/// An existing file is left alone exactly when `overwrite` is not set, and a
/// file that does not exist is always generated.
pub proof fn lemma_existing_file_kept(spec: ImageSpec)
    ensures
        spec.needs_generation(false),
        spec.needs_generation(true) == spec.overwrite,
{
}

/// The fragment can be read back: after the name of the `<img>` tag stand
/// `src` with the data URI and then the configured attributes, and after the
/// name of the wrapper tag, where there is one, the wrapper's attributes.
///
/// This holds where no attribute name holds `=`, and neither an attribute
/// value nor the encoded text holds a double quote.
pub proof fn lemma_fragment_round_trip(spec: ImageSpec, encoded: Seq<char>)
    requires
        readable(spec.attributes),
        readable(spec.wrapper_attributes),
        !encoded.contains('"'),
    ensures
        read_attributes(spec.fragment(encoded).skip(spec.image_start() as int + 4)) == image_attributes(
            encoded,
            spec.attributes,
        ),
        spec.wrapper.len() > 0 ==> read_attributes(
            spec.fragment(encoded).skip(1 + spec.wrapper.len() as int),
        ) == spec.wrapper_attributes,
{
    if spec.wrapper.len() == 0 {
        let image = image_text(encoded, spec.attributes);
        lemma_image_round_trip(encoded, spec.attributes, Seq::empty());
        assert(image + Seq::<char>::empty() =~= image);
    } else {
        lemma_wrapper_round_trip(
            spec.wrapper,
            spec.wrapper_attributes,
            image_text(encoded, spec.attributes),
        );
        lemma_wrapped_image_round_trip(
            spec.wrapper,
            spec.wrapper_attributes,
            encoded,
            spec.attributes,
        );
    }
}

/// A generated fragment can be read back: where the attribute lists are
/// readable, the `<img>` element of every fragment that encoding gives holds
/// `src` and then exactly the configured attributes, and the wrapper's
/// opening tag, where there is one, exactly the wrapper's attributes.
pub proof fn lemma_generated_round_trip<E>(
    spec: ImageSpec,
    pixels: Seq<u8>,
    res: Result<String, DocimaError<E>>,
)
    requires
        spec.encodes_to(pixels, res),
        res is Ok,
        readable(spec.attributes),
        readable(spec.wrapper_attributes),
    ensures
        read_attributes(res->Ok_0@.skip(spec.image_start() as int + 4)) == image_attributes(
            base64_mime(png_image(pixels, spec.width, spec.height)->Some_0),
            spec.attributes,
        ),
        read_attributes(res->Ok_0@.skip(spec.image_start() as int + 4)).drop_first()
            == spec.attributes,
        spec.wrapper.len() > 0 ==> read_attributes(
            res->Ok_0@.skip(1 + spec.wrapper.len() as int),
        ) == spec.wrapper_attributes,
{
    let encoded = base64_mime(png_image(pixels, spec.width, spec.height)->Some_0);
    lemma_fragment_round_trip(spec, encoded);
    assert(image_attributes(encoded, spec.attributes).drop_first() =~= spec.attributes);
}

/// In a configuration whose lists are in order, each attribute name stands
/// once in its list.
pub proof fn lemma_names_once(spec: ImageSpec)
    requires
        spec.in_order(),
    ensures
        forall|i: int, j: int|
            0 <= i < j < spec.attributes.len() ==> (#[trigger] spec.attributes[i]).0 != (
            #[trigger] spec.attributes[j]).0,
        forall|i: int, j: int|
            0 <= i < j < spec.wrapper_attributes.len() ==> (#[trigger] spec.wrapper_attributes[i]).0
                != (#[trigger] spec.wrapper_attributes[j]).0,
{
    assert forall|i: int, j: int| 0 <= i < j < spec.attributes.len() implies (
    #[trigger] spec.attributes[i]).0 != (#[trigger] spec.attributes[j]).0 by {
        lemma_ordered_names_unique(spec.attributes, i, j);
    }
    assert forall|i: int, j: int| 0 <= i < j < spec.wrapper_attributes.len() implies (
    #[trigger] spec.wrapper_attributes[i]).0 != (#[trigger] spec.wrapper_attributes[j]).0 by {
        lemma_ordered_names_unique(spec.wrapper_attributes, i, j);
    }
}

/// Attributes of different names can be set in either order: the
/// configuration, and so the fragment, comes out the same.
pub proof fn lemma_attr_order_free(
    spec: ImageSpec,
    a: Seq<char>,
    x: Seq<char>,
    b: Seq<char>,
    y: Seq<char>,
)
    requires
        a != b,
    ensures
        spec.with_attr(a, x).with_attr(b, y) == spec.with_attr(b, y).with_attr(a, x),
        spec.with_wrapper_attr(a, x).with_wrapper_attr(b, y) == spec.with_wrapper_attr(
            b,
            y,
        ).with_wrapper_attr(a, x),
{
    lemma_with_attribute_commutes(spec.attributes, a, x, b, y);
    lemma_with_attribute_commutes(spec.wrapper_attributes, a, x, b, y);
}

} // verus!
