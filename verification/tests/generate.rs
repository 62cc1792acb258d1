use docima::{DocimaError, ImageFile};

const PREFIX: &str = "<img src=\"data:image/png;base64,\n";

fn red_green(buffer: &mut Vec<u8>, _width: u32, _height: u32) -> Result<(), String> {
    buffer.copy_from_slice(&[255, 0, 0, 0, 255, 0]);
    Ok(())
}

fn gradient(buffer: &mut Vec<u8>, _width: u32, _height: u32) -> Result<(), String> {
    for (i, byte) in buffer.iter_mut().enumerate() {
        *byte = (i * 7 % 256) as u8;
    }
    Ok(())
}

/// The text between the data-URI prefix and the quote that closes `src`.
fn encoded_part(fragment: &str) -> String {
    let start = fragment.find(PREFIX).expect("the data URI") + PREFIX.len();
    let end = fragment[start..].find('"').expect("closing quote") + start;
    fragment[start..end].to_string()
}

/// Decodes the image of a fragment: width, height, and the RGB bytes.
fn decoded_image(fragment: &str) -> (u32, u32, Vec<u8>) {
    let png_bytes = data_encoding::BASE64_MIME
        .decode(encoded_part(fragment).as_bytes())
        .expect("base64");
    let decoder = png::Decoder::new(std::io::Cursor::new(png_bytes));
    let mut reader = decoder.read_info().expect("png header");
    let mut pixels = vec![0u8; reader.output_buffer_size()];
    let info = reader.next_frame(&mut pixels).expect("png frame");
    assert_eq!(info.color_type, png::ColorType::Rgb);
    assert_eq!(info.bit_depth, png::BitDepth::Eight);
    pixels.truncate(info.buffer_size());
    (info.width, info.height, pixels)
}

#[test]
fn red_and_green_pixel_with_alt() {
    let text = ImageFile::new()
        .width(2)
        .height(1)
        .path("out/img.html")
        .attr("alt", "x")
        .overwrite(true)
        .generate(red_green)
        .expect("the fragment");
    assert!(text.starts_with(PREFIX));
    assert!(text.ends_with("\" alt=\"x\"/>"));
    assert_eq!(text.matches("<img").count(), 1);
    assert_eq!(decoded_image(&text), (2, 1, vec![255, 0, 0, 0, 255, 0]));
}

#[test]
fn anchor_wrapper_with_href() {
    let text = ImageFile::new()
        .width(2)
        .height(1)
        .path("out/img.html")
        .wrapper("a")
        .wrapper_attr("href", "https://example.com")
        .generate(red_green)
        .expect("the fragment");
    let inner = ImageFile::new()
        .width(2)
        .height(1)
        .path("out/img.html")
        .generate(red_green)
        .expect("the fragment");
    assert!(inner.starts_with("<img ") && inner.ends_with("/>"));
    assert_eq!(text, format!("<a href=\"https://example.com\">{}</a>", inner));
}

#[test]
fn wrapper_without_attributes() {
    let text = ImageFile::new()
        .width(2)
        .height(1)
        .path("p")
        .wrapper("div")
        .generate(red_green)
        .expect("the fragment");
    assert!(text.starts_with("<div><img src=\""));
    assert!(text.ends_with("/></div>"));
}

#[test]
fn fragment_without_attributes_is_exact() {
    let text = ImageFile::new().width(2).height(1).path("p").generate(red_green).expect("the fragment");
    let encoded = encoded_part(&text);
    assert_eq!(text, format!("<img src=\"data:image/png;base64,\n{}\"/>", encoded));
}

#[test]
fn encoded_text_is_mime_base64_of_a_png_file() {
    let text = ImageFile::new().width(2).height(1).path("p").generate(red_green).expect("the fragment");
    let encoded = encoded_part(&text);
    let png_bytes = data_encoding::BASE64_MIME.decode(encoded.as_bytes()).expect("base64");
    assert_eq!(&png_bytes[..8], &[137, 80, 78, 71, 13, 10, 26, 10]);
    assert_eq!(data_encoding::BASE64_MIME.encode(&png_bytes), encoded);
    assert!(!encoded.contains('"'));
}

#[test]
fn long_encoded_text_is_wrapped_at_76_characters() {
    let text = ImageFile::new().width(40).height(40).path("p").generate(gradient).expect("the fragment");
    let encoded = encoded_part(&text);
    let lines: Vec<&str> = encoded.split("\r\n").collect();
    assert!(lines.len() > 2);
    assert!(lines[..lines.len() - 2].iter().all(|line| line.len() == 76));
    let (width, height, pixels) = decoded_image(&text);
    assert_eq!((width, height), (40, 40));
    let mut expected = vec![0u8; 40 * 40 * 3];
    gradient(&mut expected, 40, 40).expect("filled");
    assert_eq!(pixels, expected);
}

#[test]
fn same_pixels_give_the_same_fragment() {
    let build = || {
        ImageFile::new()
            .width(16)
            .height(9)
            .path("out/img.html")
            .attr("alt", "x")
            .wrapper("div")
            .wrapper_attr("class", "c")
            .overwrite(true)
            .generate(gradient)
            .expect("the fragment")
    };
    assert_eq!(build(), build());
}

#[test]
fn untouched_buffer_is_a_black_image() {
    let text = ImageFile::new()
        .width(3)
        .height(2)
        .path("p")
        .generate(|_: &mut Vec<u8>, _, _| -> Result<(), String> { Ok(()) })
        .expect("the fragment");
    assert_eq!(decoded_image(&text), (3, 2, vec![0u8; 18]));
}

#[test]
fn generator_error_is_handed_on() {
    let res = ImageFile::new()
        .width(2)
        .height(1)
        .path("p")
        .generate(|_: &mut Vec<u8>, _, _| -> Result<(), String> { Err("no paint".to_string()) });
    assert!(matches!(res, Err(DocimaError::StdError(ref e)) if e == "no paint"));
}

#[test]
fn resized_buffer_is_refused_by_the_encoder() {
    let res = ImageFile::new()
        .width(2)
        .height(1)
        .path("p")
        .generate(|buffer: &mut Vec<u8>, _, _| -> Result<(), String> {
            buffer.push(0);
            Ok(())
        });
    assert!(matches!(res, Err(DocimaError::PngEncodingError(_))));
}

#[test]
fn encode_fragment_takes_filled_pixels() {
    let image = ImageFile::new().width(2).height(1).path("p").attr("alt", "x");
    let text = image.encode_fragment::<String>(&vec![255, 0, 0, 0, 255, 0]).expect("the fragment");
    assert_eq!(decoded_image(&text), (2, 1, vec![255, 0, 0, 0, 255, 0]));
    let generated = ImageFile::new()
        .width(2)
        .height(1)
        .path("p")
        .attr("alt", "x")
        .generate(red_green)
        .expect("the fragment");
    assert_eq!(text, generated);
}

#[test]
fn encode_fragment_refuses_wrong_sizes() {
    let image = ImageFile::new().width(2).height(1).path("p");
    let short = image.encode_fragment::<String>(&vec![255, 0, 0]);
    assert!(matches!(short, Err(DocimaError::PngEncodingError(_))));
    let unset = ImageFile::new().encode_fragment::<String>(&vec![]);
    assert!(matches!(unset, Err(DocimaError::PngEncodingError(_))));
}

#[test]
fn fragment_attributes_are_read_back() {
    let text = ImageFile::new()
        .width(2)
        .height(1)
        .path("p")
        .attr("title", "the title")
        .attr("alt", "x")
        .wrapper("div")
        .wrapper_attr("style", "padding: 10px;")
        .wrapper_attr("class", "c")
        .generate(red_green)
        .expect("the fragment");
    let pair = |n: &str, v: &str| (n.to_string(), v.to_string());
    assert_eq!(
        docima::reader::parse_attributes(&text, 4),
        vec![pair("class", "c"), pair("style", "padding: 10px;")]
    );
    let image_start = text.find("<img").expect("the image");
    assert_eq!(image_start, "<div class=\"c\" style=\"padding: 10px;\">".len());
    let uri = format!("data:image/png;base64,\n{}", encoded_part(&text));
    assert_eq!(
        docima::reader::parse_attributes(&text, image_start + 4),
        vec![pair("src", &uri), pair("alt", "x"), pair("title", "the title")]
    );
}

fn configured() -> ImageFile {
    ImageFile::new()
        .width(2)
        .height(1)
        .path("p")
        .attr("title", "the title")
        .attr("alt", "x")
        .wrapper("a")
        .wrapper_attr("target", "_blank")
        .wrapper_attr("href", "https://example.com")
}

#[test]
fn configured_attributes_are_recovered() {
    let pair = |n: &str, v: &str| (n.to_string(), v.to_string());
    let text = configured().generate(red_green).expect("the fragment");
    let uri = format!("data:image/png;base64,\n{}", encoded_part(&text));
    assert_eq!(
        configured().read_image_attributes(&text),
        vec![pair("src", &uri), pair("alt", "x"), pair("title", "the title")]
    );
    assert_eq!(
        configured().read_wrapper_attributes(&text),
        vec![pair("href", "https://example.com"), pair("target", "_blank")]
    );
}

#[test]
fn attributes_are_recovered_without_a_wrapper() {
    let pair = |n: &str, v: &str| (n.to_string(), v.to_string());
    let text = configured().wrapper("").generate(red_green).expect("the fragment");
    let uri = format!("data:image/png;base64,\n{}", encoded_part(&text));
    assert_eq!(
        configured().wrapper("").read_image_attributes(&text),
        vec![pair("src", &uri), pair("alt", "x"), pair("title", "the title")]
    );
    assert_eq!(configured().wrapper("").read_wrapper_attributes(&text), Vec::new());
}

#[test]
fn nothing_is_read_from_a_text_that_is_too_short() {
    assert_eq!(configured().read_image_attributes("<a"), Vec::new());
    assert_eq!(configured().read_wrapper_attributes("<"), Vec::new());
    assert_eq!(configured().read_wrapper_attributes(""), Vec::new());
    assert_eq!(ImageFile::new().read_image_attributes("<im"), Vec::new());
}

#[test]
fn a_quote_in_a_value_cuts_the_value_short() {
    let pair = |n: &str, v: &str| (n.to_string(), v.to_string());
    let image = || ImageFile::new().width(2).height(1).path("p").attr("alt", "say \"hi\"");
    let text = image().generate(red_green).expect("the fragment");
    assert!(text.ends_with(" alt=\"say \"hi\"\"/>"));
    let read = image().read_image_attributes(&text);
    assert_eq!(read.len(), 2);
    assert_eq!(read[1], pair("alt", "say "));
}

#[test]
fn existing_file_is_left_alone_without_calling_the_generator() {
    let called = std::cell::Cell::new(0u32);
    let count = |_: &mut Vec<u8>, _: u32, _: u32| -> Result<(), String> {
        called.set(called.get() + 1);
        Ok(())
    };
    let image = || ImageFile::new().width(2).height(1).path("out/img.html");
    assert!(image().generate_if_needed(true, &count).is_none());
    assert!(image().overwrite(false).generate_if_needed(true, &count).is_none());
    assert_eq!(called.get(), 0);
}

#[test]
fn absent_or_overwritten_file_is_generated() {
    let image = || ImageFile::new().width(2).height(1).path("out/img.html").attr("alt", "x");
    let plain = image().generate(red_green).expect("the fragment");
    let absent = image().generate_if_needed(false, red_green).expect("generated");
    assert_eq!(absent.expect("the fragment"), plain);
    let forced = image().overwrite(true).generate_if_needed(true, red_green).expect("generated");
    assert_eq!(forced.expect("the fragment"), plain);
}

#[test]
fn missing_field_comes_before_the_existence_check() {
    let res = ImageFile::new().width(2).height(1).generate_if_needed(true, red_green);
    assert!(matches!(res, Some(Err(DocimaError::MissingField(ref f))) if f == "path"));
    let res = ImageFile::new().height(1).path("p").generate_if_needed(false, red_green);
    assert!(matches!(res, Some(Err(DocimaError::MissingField(ref f))) if f == "width"));
}

#[test]
fn missing_field_is_reported_whatever_the_dimensions() {
    let res = ImageFile::new().width(u32::MAX).height(u32::MAX).generate(red_green);
    assert!(matches!(res, Err(DocimaError::MissingField(ref f)) if f == "path"));
}

#[test]
fn generator_error_is_handed_on_when_generation_is_needed() {
    let res = ImageFile::new()
        .width(2)
        .height(1)
        .path("p")
        .generate_if_needed(false, |_: &mut Vec<u8>, _, _| -> Result<(), String> {
            Err("no paint".to_string())
        });
    assert!(matches!(res, Some(Err(DocimaError::StdError(ref e))) if e == "no paint"));
}

#[test]
fn well_sized_pixels_are_always_encoded() {
    for (width, height) in [(1u32, 1u32), (1, 7), (5, 3), (64, 2)] {
        let image = ImageFile::new().width(width).height(height).path("p");
        let pixels = vec![9u8; (width * height * 3) as usize];
        let text = image.encode_fragment::<String>(&pixels).expect("the fragment");
        assert_eq!(decoded_image(&text), (width, height, pixels));
    }
}
