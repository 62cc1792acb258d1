use docima::{DocimaError, ImageFile};

fn red_green(buffer: &mut Vec<u8>, _width: u32, _height: u32) -> Result<(), String> {
    buffer.copy_from_slice(&[255, 0, 0, 0, 255, 0]);
    Ok(())
}

fn small() -> ImageFile {
    ImageFile::new().width(2).height(1).path("out/img.html")
}

fn fragment_of(image: ImageFile) -> String {
    image.generate(red_green).expect("the fragment")
}

/// The part of a fragment after the quote that closes `src`.
fn after_src(fragment: &str) -> String {
    let opened = fragment.find("src=\"").expect("src") + 5;
    let closed = fragment[opened..].find('"').expect("closing quote") + opened;
    fragment[closed + 1..].to_string()
}

#[test]
fn missing_width_is_reported_first() {
    let res = ImageFile::new().generate(red_green);
    assert!(matches!(res, Err(DocimaError::MissingField(ref f)) if f == "width"));
    assert_eq!(ImageFile::new().missing_field(), Some("width".to_string()));
}

#[test]
fn missing_height_is_reported() {
    let image = ImageFile::new().width(2).path("out/img.html");
    assert_eq!(image.missing_field(), Some("height".to_string()));
    let res = image.generate(red_green);
    assert!(matches!(res, Err(DocimaError::MissingField(ref f)) if f == "height"));
}

#[test]
fn missing_path_is_reported() {
    let image = ImageFile::new().width(2).height(1);
    assert_eq!(image.missing_field(), Some("path".to_string()));
    let res = image.generate(red_green);
    assert!(matches!(res, Err(DocimaError::MissingField(ref f)) if f == "path"));
}

#[test]
fn zero_dimensions_count_as_missing() {
    assert_eq!(small().width(0).missing_field(), Some("width".to_string()));
    assert_eq!(small().height(0).missing_field(), Some("height".to_string()));
    assert_eq!(small().path("").missing_field(), Some("path".to_string()));
}

#[test]
fn complete_configuration_misses_nothing() {
    assert_eq!(small().missing_field(), None);
}

#[test]
fn missing_field_skips_the_generator() {
    let called = std::cell::Cell::new(false);
    let res = ImageFile::new().width(2).height(1).generate(|_: &mut Vec<u8>, _, _| -> Result<(), String> {
        called.set(true);
        Ok(())
    });
    assert!(matches!(res, Err(DocimaError::MissingField(_))));
    assert!(!called.get());
}

#[test]
fn attributes_come_in_name_order() {
    let text = fragment_of(small().attr("title", "t").attr("alt", "a").attr("id", "i"));
    assert_eq!(after_src(&text), " alt=\"a\" id=\"i\" title=\"t\"/>");
}

#[test]
fn attribute_order_does_not_depend_on_call_order() {
    let first = fragment_of(small().attr("alt", "a").attr("title", "t"));
    let second = fragment_of(small().attr("title", "t").attr("alt", "a"));
    assert_eq!(first, second);
}

#[test]
fn last_value_of_an_attribute_wins() {
    let text = fragment_of(small().attr("alt", "old").attr("id", "i").attr("alt", "new"));
    assert_eq!(after_src(&text), " alt=\"new\" id=\"i\"/>");
}

#[test]
fn a_prefix_comes_before_the_longer_name() {
    let text = fragment_of(small().attr("data-x", "2").attr("data", "1"));
    assert_eq!(after_src(&text), " data=\"1\" data-x=\"2\"/>");
}

#[test]
fn named_setters_are_short_for_attr() {
    let named = fragment_of(
        small().alt("a").title("t").id("i").class("c").style("s"),
    );
    let generic = fragment_of(
        small()
            .attr("alt", "a")
            .attr("title", "t")
            .attr("id", "i")
            .attr("class", "c")
            .attr("style", "s"),
    );
    assert_eq!(named, generic);
    assert_eq!(after_src(&named), " alt=\"a\" class=\"c\" id=\"i\" style=\"s\" title=\"t\"/>");
}

#[test]
fn named_wrapper_setters_are_short_for_wrapper_attr() {
    let named = fragment_of(
        small()
            .wrapper("a")
            .wrapper_alt("a")
            .wrapper_title("t")
            .wrapper_id("i")
            .wrapper_class("c")
            .wrapper_style("s")
            .wrapper_href("h")
            .wrapper_target("_blank"),
    );
    let generic = fragment_of(
        small()
            .wrapper("a")
            .wrapper_attr("alt", "a")
            .wrapper_attr("title", "t")
            .wrapper_attr("id", "i")
            .wrapper_attr("class", "c")
            .wrapper_attr("style", "s")
            .wrapper_attr("href", "h")
            .wrapper_attr("target", "_blank"),
    );
    assert_eq!(named, generic);
    assert!(named.starts_with(
        "<a alt=\"a\" class=\"c\" href=\"h\" id=\"i\" style=\"s\" target=\"_blank\" title=\"t\"><img src=\""
    ));
    assert!(named.ends_with("/></a>"));
}

#[test]
fn wrapper_attributes_are_dropped_without_a_wrapper() {
    let plain = fragment_of(small());
    let text = fragment_of(small().wrapper_attr("class", "c"));
    assert_eq!(text, plain);
    let emptied = fragment_of(small().wrapper("div").wrapper(""));
    assert_eq!(emptied, plain);
}

#[test]
fn overwrite_decides_whether_an_existing_file_is_replaced() {
    assert!(small().needs_generation(false));
    assert!(!small().needs_generation(true));
    assert!(!small().overwrite(false).needs_generation(true));
    assert!(small().overwrite(true).needs_generation(true));
    assert!(small().overwrite(true).needs_generation(false));
}

#[test]
fn buffer_has_three_zero_bytes_per_pixel() {
    let buffer = ImageFile::new().width(4).height(5).new_buffer();
    assert_eq!(buffer.len(), 60);
    assert!(buffer.iter().all(|b| *b == 0));
    assert_eq!(ImageFile::new().width(7).new_buffer().len(), 0);
}

#[test]
fn generator_receives_the_buffer_and_the_dimensions() {
    let seen = std::cell::Cell::new((0usize, 0u32, 0u32, false));
    let image = ImageFile::new().width(3).height(7).path("p.html");
    let res = image.generate(|buffer: &mut Vec<u8>, w, h| -> Result<(), String> {
        seen.set((buffer.len(), w, h, buffer.iter().all(|b| *b == 0)));
        Ok(())
    });
    assert!(res.is_ok());
    assert_eq!(seen.get(), (63, 3, 7, true));
}

#[test]
fn target_path_is_below_the_root() {
    assert_eq!(small().target_path("/work/project"), "/work/project/out/img.html");
    assert_eq!(small().target_path("/work/project/"), "/work/project/out/img.html");
    assert_eq!(small().target_path(""), "out/img.html");
}

#[test]
fn dimensions_are_kept_as_set() {
    assert_eq!(ImageFile::new().dimensions(), (0, 0));
    assert_eq!(ImageFile::new().width(600).height(400).dimensions(), (600, 400));
    assert_eq!(small().width(9).dimensions(), (9, 1));
}

#[test]
fn href_and_target_belong_to_an_anchor() {
    assert!(small().anchor_attributes_fit());
    assert!(small().wrapper("a").wrapper_href("h").wrapper_target("_blank").anchor_attributes_fit());
    assert!(small().wrapper("div").wrapper_class("c").anchor_attributes_fit());
    assert!(!small().wrapper("div").wrapper_href("h").anchor_attributes_fit());
    assert!(!small().wrapper("div").wrapper_target("_blank").anchor_attributes_fit());
    assert!(!small().wrapper_attr("href", "h").anchor_attributes_fit());
    assert!(small().wrapper("div").wrapper_href("h").wrapper("a").anchor_attributes_fit());
}

#[test]
fn default_is_the_unset_configuration() {
    let image = ImageFile::default();
    assert_eq!(image.dimensions(), (0, 0));
    assert_eq!(image.missing_field(), Some("width".to_string()));
    assert_eq!(image.target_path("root"), "root/");
    assert!(!image.needs_generation(true));
    let text = ImageFile::default().width(2).height(1).path("p").generate(red_green).expect("the fragment");
    assert_eq!(text, fragment_of(ImageFile::new().width(2).height(1).path("p")));
}
