use tcolr::source::{get_image_from_bytes, locate, ImageFromUriError, ImageSource};

fn file(path: &str) -> Result<ImageSource, ImageFromUriError> {
    Ok(ImageSource::File(String::from(path)))
}

fn http(url: &str) -> Result<ImageSource, ImageFromUriError> {
    Ok(ImageSource::Http(String::from(url)))
}

fn unsupported(scheme: &str, uri: &str) -> Result<ImageSource, ImageFromUriError> {
    Err(ImageFromUriError::UnsupportedScheme((String::from(scheme), String::from(uri))))
}

#[test]
fn locator_without_a_scheme_is_a_path() {
    assert_eq!(locate("/tmp/a.png"), file("/tmp/a.png"));
    assert_eq!(locate("a.png"), file("a.png"));
    assert_eq!(locate(""), file(""));
    assert_eq!(locate("c:/x.png"), file("c:/x.png"));
    assert_eq!(locate(":/"), file(":/"));
}

#[test]
fn file_scheme_is_stripped() {
    assert_eq!(locate("file:///tmp/a.png"), file("/tmp/a.png"));
    assert_eq!(locate("file://a.png"), file("a.png"));
    assert_eq!(locate("file://"), file(""));
}

#[test]
fn file_scheme_is_stripped_again_and_again() {
    assert_eq!(locate("file://file:///tmp/a.png"), file("/tmp/a.png"));
    assert_eq!(locate("file://http://host/a.png"), http("http://host/a.png"));
    assert_eq!(locate("file://ftp://host/a.png"), unsupported("ftp", "ftp://host/a.png"));
}

#[test]
fn web_addresses_are_kept_whole() {
    assert_eq!(locate("http://host/a.png"), http("http://host/a.png"));
    assert_eq!(locate("https://host/a.png"), http("https://host/a.png"));
    assert_eq!(locate("https://"), http("https://"));
}

#[test]
fn other_schemes_are_refused_with_their_name() {
    assert_eq!(locate("ftp://host/a.png"), unsupported("ftp", "ftp://host/a.png"));
    assert_eq!(locate("://x"), unsupported("", "://x"));
    assert_eq!(locate("httpx://host"), unsupported("httpx", "httpx://host"));
    assert_eq!(locate("a://b://c"), unsupported("a", "a://b://c"));
    assert_eq!(locate("FILE://a"), unsupported("FILE", "FILE://a"));
}

#[test]
fn separator_later_in_the_locator_still_counts() {
    assert_eq!(locate("/tmp/x://y"), unsupported("/tmp/x", "/tmp/x://y"));
    assert_eq!(locate("file:/x://y"), unsupported("file:/x", "file:/x://y"));
}

#[test]
fn locators_need_not_be_ascii() {
    assert_eq!(locate("file://bild-\u{e4}\u{20ac}.png"), file("bild-\u{e4}\u{20ac}.png"));
    assert_eq!(locate("\u{e4}\u{20ac}://x"), unsupported("\u{e4}\u{20ac}", "\u{e4}\u{20ac}://x"));
}

#[test]
fn messages_of_errors() {
    assert_eq!(ImageFromUriError::NoSchemeSpecified(String::from("a.png")).message(), "a.png");
    assert_eq!(
        ImageFromUriError::UnsupportedScheme((String::from("ftp"), String::from("ftp://h/a")))
            .message(),
        "(ftp, ftp://h/a)"
    );
    assert_eq!(ImageFromUriError::ImageError(String::from("bad")).message(), "bad");
    assert_eq!(ImageFromUriError::Generic(String::from("worse")).message(), "worse");
}

#[test]
fn errors_from_a_locator_and_from_a_pair() {
    assert_eq!(
        ImageFromUriError::from(String::from("a.png")),
        ImageFromUriError::NoSchemeSpecified(String::from("a.png"))
    );
    assert_eq!(
        ImageFromUriError::from((String::from("ftp"), String::from("ftp://h"))),
        ImageFromUriError::UnsupportedScheme((String::from("ftp"), String::from("ftp://h")))
    );
}

#[test]
fn bytes_that_are_no_image_are_a_generic_error() {
    let res = get_image_from_bytes(vec![1, 2, 3, 4]);
    assert!(matches!(res, Err(ImageFromUriError::Generic(_))));
    let res = get_image_from_bytes(Vec::new());
    assert!(matches!(res, Err(ImageFromUriError::Generic(_))));
}

#[test]
fn truncated_image_is_a_generic_error_with_the_decoders_words() {
    let res = get_image_from_bytes(vec![0x89, b'P', b'N', b'G', 0x0d, 0x0a, 0x1a, 0x0a]);
    match res {
        Err(ImageFromUriError::Generic(said)) => assert!(!said.is_empty()),
        _ => panic!("a truncated image was decoded"),
    }
}

#[test]
fn bitmap_bytes_are_decoded() {
    // A 2x1 bitmap of 24 bits per pixel: blue, then red.
    let mut bytes: Vec<u8> = Vec::new();
    bytes.extend_from_slice(b"BM");
    bytes.extend_from_slice(&62u32.to_le_bytes());
    bytes.extend_from_slice(&0u32.to_le_bytes());
    bytes.extend_from_slice(&54u32.to_le_bytes());
    bytes.extend_from_slice(&40u32.to_le_bytes());
    bytes.extend_from_slice(&2i32.to_le_bytes());
    bytes.extend_from_slice(&1i32.to_le_bytes());
    bytes.extend_from_slice(&1u16.to_le_bytes());
    bytes.extend_from_slice(&24u16.to_le_bytes());
    bytes.extend_from_slice(&0u32.to_le_bytes());
    bytes.extend_from_slice(&8u32.to_le_bytes());
    bytes.extend_from_slice(&2835i32.to_le_bytes());
    bytes.extend_from_slice(&2835i32.to_le_bytes());
    bytes.extend_from_slice(&0u32.to_le_bytes());
    bytes.extend_from_slice(&0u32.to_le_bytes());
    bytes.extend_from_slice(&[255, 0, 0, 0, 0, 255, 0, 0]);
    let image = get_image_from_bytes(bytes).unwrap();
    let rgb = image.as_rgb8().unwrap();
    assert_eq!((rgb.width(), rgb.height()), (2, 1));
    assert_eq!(rgb.get_pixel(0, 0).0, [0, 0, 255]);
    assert_eq!(rgb.get_pixel(1, 0).0, [255, 0, 0]);
}
