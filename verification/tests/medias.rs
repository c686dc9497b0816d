use zurished::error::BadRequest;
use zurished::error::Error;
use zurished::media::path_to_media;
use zurished::media::plan_resize;
use zurished::media::resize_image;
use zurished::media::resize_media;
use zurished::media::Media;

fn encoded(width: u32, height: u32, format: image::ImageFormat) -> Vec<u8> {
    let mut pixels = image::RgbImage::new(width, height);
    for (x, y, pixel) in pixels.enumerate_pixels_mut() {
        *pixel = image::Rgb([(x % 256) as u8, (y % 256) as u8, ((x + y) % 256) as u8]);
    }
    let mut sink = std::io::Cursor::new(Vec::new());
    image::DynamicImage::ImageRgb8(pixels).write_to(&mut sink, format).unwrap();
    sink.into_inner()
}

fn jpeg(width: u32, height: u32) -> Vec<u8> {
    encoded(width, height, image::ImageFormat::Jpeg)
}

fn size_of(bytes: &[u8]) -> (u32, u32) {
    let picture = image::load_from_memory(bytes).unwrap();
    (picture.width(), picture.height())
}

#[test]
fn test_path_to_media_1() {
    let media = path_to_media("src/test/1.jpeg", &jpeg(225, 225)).unwrap();

    assert!(media.dimensions == (225, 225));
}

#[test]
fn test_path_to_media_2() {
    let media = path_to_media("src/test/2.jpeg", &jpeg(107, 182)).unwrap();

    assert!(media.dimensions == (107, 182));
}

#[test]
fn test_path_to_media_3() {
    let media = path_to_media("src/test/2016/3.jpeg", &jpeg(225, 225)).unwrap();

    assert!(media.dimensions == (225, 225));
}

#[test]
fn media_is_named_by_its_file() {
    let media = path_to_media("src/test/2016/3.jpeg", &jpeg(8, 4)).unwrap();
    assert_eq!(media, Media { name: "3.jpeg".to_string(), dimensions: (8, 4) });
}

#[test]
fn media_of_other_formats_is_described() {
    let png = encoded(31, 17, image::ImageFormat::Png);
    assert_eq!(path_to_media("a/b.png", &png).unwrap().dimensions, (31, 17));
    let gif = encoded(5, 9, image::ImageFormat::Gif);
    assert_eq!(path_to_media("a/b.gif", &gif).unwrap().dimensions, (5, 9));
    let bmp = encoded(3, 2, image::ImageFormat::Bmp);
    assert_eq!(path_to_media("a/b.bmp", &bmp).unwrap().dimensions, (3, 2));
}

#[test]
fn what_is_no_image_is_no_media() {
    assert_eq!(path_to_media("notes.txt", b"just some text"), None);
    assert_eq!(path_to_media("empty.jpeg", &[]), None);
    let mut cut = jpeg(64, 64);
    cut.truncate(20);
    assert_eq!(path_to_media("cut.jpeg", &cut), None);
}

#[test]
fn an_image_without_name_is_no_media() {
    assert_eq!(path_to_media("..", &jpeg(4, 4)), None);
    assert_eq!(path_to_media("", &jpeg(4, 4)), None);
    assert_eq!(path_to_media("a/..", &jpeg(4, 4)), None);
}

#[test]
fn media_new_names_by_the_final_component() {
    assert_eq!(
        Media::new("a/b/c.jpeg", (1, 2)),
        Some(Media { name: "c.jpeg".to_string(), dimensions: (1, 2) })
    );
    assert_eq!(Media::new("/", (1, 2)), None);
}

#[test]
fn plan_keeps_a_square_square() {
    assert_eq!(plan_resize(100, (225, 225)), Ok((100, 100)));
    assert_eq!(plan_resize(1, (225, 225)), Ok((1, 1)));
    assert_eq!(plan_resize(450, (225, 225)), Ok((450, 450)));
}

#[test]
fn plan_keeps_the_size_at_the_same_width() {
    assert_eq!(plan_resize(107, (107, 182)), Ok((107, 182)));
}

#[test]
fn plan_rounds_the_height_down() {
    assert_eq!(plan_resize(2, (3, 2)), Ok((2, 1)));
    assert_eq!(plan_resize(150, (1000, 10)), Ok((150, 1)));
    assert_eq!(plan_resize(100, (107, 182)), Ok((100, 170)));
    assert_eq!(plan_resize(7, (107, 182)), Ok((7, 11)));
}

#[test]
fn plan_refuses_a_size_without_height() {
    assert_eq!(plan_resize(100, (1000, 1)), Err(Error::BadRequest(BadRequest::BadSize)));
    assert_eq!(plan_resize(50, (200, 1)), Err(Error::BadRequest(BadRequest::BadSize)));
    assert_eq!(plan_resize(5, (7, 0)), Err(Error::BadRequest(BadRequest::BadSize)));
    assert_eq!(plan_resize(50, (200, 4)), Ok((50, 1)));
}

#[test]
fn plan_refuses_a_width_of_zero() {
    assert_eq!(plan_resize(0, (225, 225)), Err(Error::BadRequest(BadRequest::BadSize)));
    assert_eq!(plan_resize(0, (1, 0)), Err(Error::BadRequest(BadRequest::BadSize)));
}

#[test]
fn plan_refuses_a_source_without_width() {
    assert_eq!(plan_resize(100, (0, 225)), Err(Error::Undecodable));
    assert_eq!(plan_resize(100, (0, 0)), Err(Error::Undecodable));
    assert_eq!(plan_resize(0, (0, 0)), Err(Error::Undecodable));
}

#[test]
fn plan_refuses_more_than_a_jpeg_can_state() {
    assert_eq!(plan_resize(65_535, (10, 10)), Ok((65_535, 65_535)));
    assert_eq!(plan_resize(65_536, (10, 10)), Err(Error::BadRequest(BadRequest::BadSize)));
    assert_eq!(plan_resize(65_535, (10, 11)), Err(Error::BadRequest(BadRequest::BadSize)));
    assert_eq!(
        plan_resize(4_294_967_295, (1, 4_294_967_295)),
        Err(Error::BadRequest(BadRequest::BadSize))
    );
}

#[test]
fn resize_of_a_square_gives_a_square() {
    let out = resize_media(&jpeg(225, 225), 100).unwrap();
    assert_eq!(size_of(&out), (100, 100));
}

#[test]
fn resize_at_the_same_width_keeps_the_size() {
    let out = resize_media(&jpeg(107, 182), 107).unwrap();
    assert_eq!(size_of(&out), (107, 182));
}

#[test]
fn resize_can_enlarge() {
    let out = resize_media(&jpeg(10, 20), 30).unwrap();
    assert_eq!(size_of(&out), (30, 60));
}

#[test]
fn resize_gives_a_jpeg_whatever_came_in() {
    let png = encoded(40, 30, image::ImageFormat::Png);
    assert_eq!(image::guess_format(&png).unwrap(), image::ImageFormat::Png);
    let out = resize_media(&png, 20).unwrap();
    assert_eq!(image::guess_format(&out).unwrap(), image::ImageFormat::Jpeg);
    assert_eq!(size_of(&out), (20, 15));
    let same = resize_media(&png, 40).unwrap();
    assert_eq!(image::guess_format(&same).unwrap(), image::ImageFormat::Jpeg);
    assert_eq!(size_of(&same), (40, 30));
}

#[test]
fn resize_is_the_same_for_the_same_input() {
    let source = jpeg(33, 21);
    assert_eq!(resize_media(&source, 11), resize_media(&source, 11));
}

#[test]
fn resize_refuses_a_width_of_zero() {
    assert_eq!(resize_media(&jpeg(225, 225), 0), Err(Error::BadRequest(BadRequest::BadSize)));
}

#[test]
fn resize_reports_what_is_no_image_whatever_the_width() {
    assert_eq!(resize_media(b"no image", 0), Err(Error::Undecodable));
    assert_eq!(resize_media(b"no image", 70_000), Err(Error::Undecodable));
    let mut cut = jpeg(64, 64);
    cut.truncate(20);
    assert_eq!(resize_media(&cut, 0), Err(Error::Undecodable));
    assert_eq!(resize_media(&cut, 32), Err(Error::Undecodable));
}

#[test]
fn resize_refuses_what_is_no_image() {
    assert_eq!(resize_media(b"no image", 100), Err(Error::Undecodable));
    assert_eq!(resize_media(&[], 100), Err(Error::Undecodable));
}

#[test]
fn resize_refuses_what_is_too_large() {
    assert_eq!(
        resize_media(&jpeg(10, 10), 70_000),
        Err(Error::BadRequest(BadRequest::BadSize))
    );
    assert_eq!(
        resize_media(&jpeg(1, 100), 1_000),
        Err(Error::BadRequest(BadRequest::BadSize))
    );
}

#[test]
fn resize_gives_exactly_the_planned_size() {
    assert_eq!(size_of(&resize_media(&jpeg(107, 182), 7).unwrap()), (7, 11));
    assert_eq!(size_of(&resize_media(&jpeg(1000, 10), 150).unwrap()), (150, 1));
    assert_eq!(size_of(&resize_media(&jpeg(3, 2), 2).unwrap()), (2, 1));
    assert_eq!(size_of(&resize_media(&jpeg(200, 4), 50).unwrap()), (50, 1));
}

#[test]
fn resize_refuses_a_size_without_height() {
    assert_eq!(resize_media(&jpeg(200, 1), 50), Err(Error::BadRequest(BadRequest::BadSize)));
}

#[test]
fn resize_image_serves_a_decoded_image() {
    let picture = image::DynamicImage::ImageRgb8(image::RgbImage::new(40, 30));
    let out = resize_image(&picture, 20).unwrap();
    assert_eq!(image::guess_format(&out).unwrap(), image::ImageFormat::Jpeg);
    assert_eq!(size_of(&out), (20, 15));
    assert_eq!(resize_image(&picture, 0), Err(Error::BadRequest(BadRequest::BadSize)));
    assert_eq!(resize_image(&picture, 65_536), Err(Error::BadRequest(BadRequest::BadSize)));
    let gray = image::DynamicImage::ImageLuma8(image::GrayImage::new(8, 8));
    assert_eq!(size_of(&resize_image(&gray, 4).unwrap()), (4, 4));
    let clear = image::DynamicImage::ImageRgba8(image::RgbaImage::new(8, 6));
    assert_eq!(size_of(&resize_image(&clear, 4).unwrap()), (4, 3));
}
