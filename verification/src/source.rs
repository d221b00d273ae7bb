//! Where an image comes from: telling a file path from a web address, and
//! decoding the bytes that were fetched.

use vstd::prelude::*;
use vstd::string::*;

verus! {

/// Why no image could be had from a locator.
#[derive(Debug, PartialEq, Eq)]
pub enum ImageFromUriError {
    /// The locator names no scheme.
    NoSchemeSpecified(String),
    /// The locator's scheme, and the locator, where the scheme is none of
    /// `file`, `http` and `https`.
    UnsupportedScheme((String, String)),
    /// What the decoder said of a file that it could not decode.
    ImageError(String),
    /// What was said of any other failure.
    Generic(String),
}

impl ImageFromUriError {
    /// The text that describes the error.
    pub open spec fn message_of(self) -> Seq<char> {
        match self {
            ImageFromUriError::NoSchemeSpecified(uri) => uri@,
            ImageFromUriError::UnsupportedScheme(pair) => seq!['('] + pair.0@ + seq![',', ' ']
                + pair.1@ + seq![')'],
            ImageFromUriError::ImageError(text) => text@,
            ImageFromUriError::Generic(text) => text@,
        }
    }

    /// The text that describes the error: the locator, the scheme and the
    /// locator as a pair in round brackets, or what was said of the failure.
    pub fn message(&self) -> (text: String)
        ensures
            text@ == self.message_of(),
    {
        match self {
            ImageFromUriError::NoSchemeSpecified(uri) => uri.clone(),
            ImageFromUriError::UnsupportedScheme(pair) => {
                proof {
                    reveal_strlit("(");
                    reveal_strlit(", ");
                    reveal_strlit(")");
                }
                let mut text = String::new();
                text.append("(");
                text.append(pair.0.as_str());
                text.append(", ");
                text.append(pair.1.as_str());
                text.append(")");
                assert(text@ =~= self.message_of());
                text
            },
            ImageFromUriError::ImageError(said) => said.clone(),
            ImageFromUriError::Generic(said) => said.clone(),
        }
    }
}

impl From<String> for ImageFromUriError {
    fn from(uri: String) -> (error: Self) {
        return ImageFromUriError::NoSchemeSpecified(uri);
    }
}

impl vstd::std_specs::convert::FromSpecImpl<String> for ImageFromUriError {
    open spec fn obeys_from_spec() -> bool {
        true
    }

    open spec fn from_spec(uri: String) -> Self {
        ImageFromUriError::NoSchemeSpecified(uri)
    }
}

impl From<(String, String)> for ImageFromUriError {
    fn from(schema_url: (String, String)) -> (error: Self) {
        ImageFromUriError::UnsupportedScheme(schema_url)
    }
}

impl vstd::std_specs::convert::FromSpecImpl<(String, String)> for ImageFromUriError {
    open spec fn obeys_from_spec() -> bool {
        true
    }

    open spec fn from_spec(schema_url: (String, String)) -> Self {
        ImageFromUriError::UnsupportedScheme(schema_url)
    }
}

/// Where to fetch an image from.
#[derive(Debug, PartialEq, Eq)]
pub enum ImageSource {
    /// A file, by its path.
    File(String),
    /// A web address, `http` or `https`.
    Http(String),
}

/// What a locator stands for, over its characters.
pub enum Location {
    /// A file, by its path.
    File(Seq<char>),
    /// A web address.
    Http(Seq<char>),
    /// A scheme that is not served, and the locator that holds it.
    Unsupported(Seq<char>, Seq<char>),
}

/// Whether the scheme separator `://` stands at index `i` of `s`.
pub open spec fn separator_at(s: Seq<char>, i: int) -> bool {
    0 <= i && i + 3 <= s.len() && s[i] == ':' && s[i + 1] == '/' && s[i + 2] == '/'
}

/// Whether `s` holds the scheme separator anywhere.
pub open spec fn has_separator(s: Seq<char>) -> bool {
    exists|i: int| separator_at(s, i)
}

/// Whether the first scheme separator of `s` stands at index `i`.
pub open spec fn first_separator_at(s: Seq<char>, i: int) -> bool {
    separator_at(s, i) && forall|j: int| 0 <= j < i ==> !separator_at(s, j)
}

/// The scheme of `s`: what stands before its first scheme separator.
pub open spec fn scheme_of(s: Seq<char>) -> Seq<char> {
    s.take(choose|i: int| first_separator_at(s, i))
}

/// Whether `s` begins with `prefix`.
pub open spec fn starts_with(s: Seq<char>, prefix: Seq<char>) -> bool {
    prefix.len() <= s.len() && s.take(prefix.len() as int) =~= prefix
}

/// `file://`
pub open spec fn file_prefix() -> Seq<char> {
    seq!['f', 'i', 'l', 'e', ':', '/', '/']
}

/// `http://`
pub open spec fn http_prefix() -> Seq<char> {
    seq!['h', 't', 't', 'p', ':', '/', '/']
}

/// `https://`
pub open spec fn https_prefix() -> Seq<char> {
    seq!['h', 't', 't', 'p', 's', ':', '/', '/']
}

/// What a locator stands for. One without a scheme separator is a file path.
/// One that begins with `file://` stands for what follows that prefix. One
/// that begins with `http://` or `https://` is a web address. Any other is
/// refused, with its scheme.
pub open spec fn located(uri: Seq<char>) -> Location
    decreases uri.len(),
{
    if !has_separator(uri) {
        Location::File(uri)
    } else if starts_with(uri, file_prefix()) {
        located(uri.skip(7))
    } else if starts_with(uri, http_prefix()) || starts_with(uri, https_prefix()) {
        Location::Http(uri)
    } else {
        Location::Unsupported(scheme_of(uri), uri)
    }
}

/// Whether `res` says of a locator what `location` says of its characters.
pub open spec fn agrees(res: Result<ImageSource, ImageFromUriError>, location: Location) -> bool {
    match location {
        Location::File(path) => res matches Ok(ImageSource::File(p)) && p@ == path,
        Location::Http(url) => res matches Ok(ImageSource::Http(u)) && u@ == url,
        Location::Unsupported(scheme, uri) => res matches Err(
            ImageFromUriError::UnsupportedScheme(pair),
        ) && pair.0@ == scheme && pair.1@ == uri,
    }
}

/// The characters of a string, one by one.
fn chars_of(text: &str) -> (chars: Vec<char>)
    ensures
        chars@ == text@,
{
    let mut chars: Vec<char> = Vec::new();
    for c in it: text.chars()
        invariant
            it.seq() == text@,
            chars@ == it.seq().take(it.index() as int),
    {
        chars.push(c);
        assert(it.seq().take(it.index() + 1) =~= it.seq().take(it.index() as int).push(c));
    }
    assert(text@.take(text@.len() as int) =~= text@);
    chars
}

/// The index of the first scheme separator at or after `start`, if there is
/// one.
fn find_separator(chars: &Vec<char>, start: usize) -> (found: Option<usize>)
    requires
        start <= chars@.len(),
    ensures
        found is None ==> !has_separator(chars@.skip(start as int)),
        found matches Some(at) ==> start <= at && at + 3 <= chars@.len() && first_separator_at(
            chars@.skip(start as int),
            at - start,
        ),
{
    let n = chars.len();
    let ghost rest = chars@.skip(start as int);
    let mut at: usize = start;
    while at < n && n - at >= 3
        invariant
            start <= at <= n,
            n == chars@.len(),
            rest == chars@.skip(start as int),
            forall|j: int| 0 <= j < at - start ==> !separator_at(rest, j),
        decreases n - at,
    {
        if chars[at] == ':' && chars[at + 1] == '/' && chars[at + 2] == '/' {
            assert(separator_at(rest, at - start));
            return Some(at);
        }
        assert(!separator_at(rest, at - start));
        at = at + 1;
    }
    assert forall|j: int| !separator_at(rest, j) by {
        if 0 <= j && j + 3 <= rest.len() {
            assert(j < at - start);
        }
    }
    None
}

/// Whether what stands at and after `start` begins with `prefix`.
fn has_prefix_at(chars: &Vec<char>, start: usize, prefix: &[char]) -> (found: bool)
    requires
        start <= chars@.len(),
    ensures
        found == starts_with(chars@.skip(start as int), prefix@),
{
    let n = chars.len();
    let m = prefix.len();
    let ghost rest = chars@.skip(start as int);
    if n - start < m {
        return false;
    }
    let mut i: usize = 0;
    while i < m
        invariant
            i <= m,
            m == prefix@.len(),
            n == chars@.len(),
            start + m <= n,
            rest == chars@.skip(start as int),
            forall|j: int| 0 <= j < i ==> rest[j] == prefix@[j],
        decreases m - i,
    {
        if chars[start + i] != prefix[i] {
            assert(rest.take(m as int)[i as int] != prefix@[i as int]);
            return false;
        }
        i = i + 1;
    }
    assert(rest.take(m as int) =~= prefix@);
    true
}

/// Tells what a locator stands for: a file path, a web address, or a scheme
/// that is not served.
pub fn locate(image_url: &str) -> (res: Result<ImageSource, ImageFromUriError>)
    ensures
        agrees(res, located(image_url@)),
{
    let chars = chars_of(image_url);
    let n = chars.len();
    let file: [char; 7] = ['f', 'i', 'l', 'e', ':', '/', '/'];
    let http: [char; 7] = ['h', 't', 't', 'p', ':', '/', '/'];
    let https: [char; 8] = ['h', 't', 't', 'p', 's', ':', '/', '/'];
    assert(file@ =~= file_prefix());
    assert(http@ =~= http_prefix());
    assert(https@ =~= https_prefix());
    let mut start: usize = 0;
    assert(image_url@.skip(0) =~= image_url@);
    loop
        invariant
            start <= n,
            n == chars@.len(),
            chars@ == image_url@,
            file@ == file_prefix(),
            http@ == http_prefix(),
            https@ == https_prefix(),
            located(image_url@) == located(image_url@.skip(start as int)),
        decreases n - start,
    {
        let ghost rest = image_url@.skip(start as int);
        assert(rest =~= image_url@.subrange(start as int, n as int));
        match find_separator(&chars, start) {
            None => {
                let path = image_url.substring_char(start, n).to_owned();
                return Ok(ImageSource::File(path));
            },
            Some(at) => {
                assert(separator_at(rest, at - start));
                if has_prefix_at(&chars, start, file.as_slice()) {
                    assert(rest.skip(7) =~= image_url@.skip(start + 7));
                    start = start + 7;
                } else if has_prefix_at(&chars, start, http.as_slice()) || has_prefix_at(
                    &chars,
                    start,
                    https.as_slice(),
                ) {
                    let url = image_url.substring_char(start, n).to_owned();
                    return Ok(ImageSource::Http(url));
                } else {
                    proof {
                        let first = choose|i: int| first_separator_at(rest, i);
                        assert(first_separator_at(rest, at - start));
                        assert(first == at - start) by {
                            if first < at - start {
                                assert(!separator_at(rest, first));
                            } else if first > at - start {
                                assert(!separator_at(rest, at - start));
                            }
                        }
                        assert(rest.take(at - start) =~= image_url@.subrange(
                            start as int,
                            at as int,
                        ));
                    }
                    let scheme = image_url.substring_char(start, at).to_owned();
                    let uri = image_url.substring_char(start, n).to_owned();
                    return Err(ImageFromUriError::from((scheme, uri)));
                }
            },
        }
    }
}

/// `image::DynamicImage`, a decoded image of any pixel layout; it is carried
/// through as it is, and nothing is said of what it holds.
#[verifier::external_type_specification]
#[verifier::external_body]
pub struct ExDynamicImage(image::DynamicImage);

/// `image::io::Reader` over the bytes, with the format guessed from their
/// content (`with_guessed_format`), then `decode`. Bytes that cannot be read
/// as an image give the error's text as its `Display` writes it. Nothing is
/// claimed of which bytes can be read, nor of the words of the error: some
/// formats are decoded by several threads, and which of two faults is met
/// first is not settled by the bytes.
#[verifier::external_body]
fn decode(bytes: Vec<u8>) -> (outcome: Result<image::DynamicImage, String>) {
    match image::io::Reader::new(std::io::Cursor::new(bytes)).with_guessed_format() {
        Ok(reader) => match reader.decode() {
            Ok(image) => Ok(image),
            Err(e) => Err(e.to_string()),
        },
        Err(e) => Err(e.to_string()),
    }
}

/// Files what came of decoding: the image, or the failure as a
/// [`ImageFromUriError::Generic`] error with what the decoder said.
pub fn decoded(outcome: Result<image::DynamicImage, String>) -> (res: Result<
    image::DynamicImage,
    ImageFromUriError,
>)
    ensures
        match outcome {
            Ok(image) => res == Ok::<image::DynamicImage, ImageFromUriError>(image),
            Err(said) => res == Err::<image::DynamicImage, ImageFromUriError>(
                ImageFromUriError::Generic(said),
            ),
        },
{
    match outcome {
        Ok(image) => Ok(image),
        Err(said) => Err(ImageFromUriError::Generic(said)),
    }
}

/// Decodes the bytes of an image file of any format that the decoder knows by
/// its content. The bytes are handed to the decoder as they are; whatever it
/// fails on comes back as a [`ImageFromUriError::Generic`] error, as
/// [`decoded`] files it.
pub fn get_image_from_bytes(bytes: Vec<u8>) -> (res: Result<image::DynamicImage, ImageFromUriError>)
    ensures
        res matches Err(error) ==> error is Generic,
{
    decoded(decode(bytes))
}

} // verus!
