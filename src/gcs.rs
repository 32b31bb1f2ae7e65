use vstd::prelude::*;
use vstd::string::StringSliceAdditionalSpecFns;

verus! {

/// A place in Cloud Storage: a bucket, and a prefix for the names of the
/// objects put there (empty, or ending in `/`).
#[derive(Debug)]
pub struct Path {
    pub bucket: String,
    pub prefix: String,
}

/// Why a text is not a Cloud Storage path.
#[derive(Debug, Clone, Copy, PartialEq, Eq)]
pub enum PathError {
    /// The text does not start with `gs://`.
    MissingScheme,
    /// The part after the bucket is neither empty nor ends with `/`.
    PrefixWithoutSlash,
}

pub open spec fn scheme() -> Seq<char> {
    seq!['g', 's', ':', '/', '/']
}

/// Whether `i` is the position of the first `/` in `t`.
pub open spec fn first_slash_at(t: Seq<char>, i: int) -> bool {
    &&& 0 <= i < t.len()
    &&& t[i] == '/'
    &&& forall|j: int| 0 <= j < i ==> t[j] != '/'
}

/// The bucket and prefix that a text names, or why it names none.
pub open spec fn parse_path(s: Seq<char>) -> Result<(Seq<char>, Seq<char>), PathError> {
    if s.len() < 5 || s.take(5) != scheme() {
        Err(PathError::MissingScheme)
    } else {
        let t = s.skip(5);
        if forall|i: int| 0 <= i < t.len() ==> t[i] != '/' {
            Ok((t, Seq::empty()))
        } else {
            let i = choose|i: int| first_slash_at(t, i);
            let prefix = t.skip(i + 1);
            if prefix.len() > 0 && prefix.last() != '/' {
                Err(PathError::PrefixWithoutSlash)
            } else {
                Ok((t.take(i), prefix))
            }
        }
    }
}

impl Path {
    /// Reads a path of the form `gs://bucket` or `gs://bucket/prefix/`.
    pub fn parse(s: &str) -> (r: Result<Path, PathError>)
        ensures
            match r {
                Ok(p) => parse_path(s@) == Ok::<(Seq<char>, Seq<char>), PathError>((p.bucket@, p.prefix@)),
                Err(e) => parse_path(s@) == Err::<(Seq<char>, Seq<char>), PathError>(e),
            },
    {
        let n: usize = s.unicode_len();
        if n < 5 || s.get_char(0) != 'g' || s.get_char(1) != 's' || s.get_char(2) != ':'
            || s.get_char(3) != '/' || s.get_char(4) != '/'
        {
            proof {
                if s@.len() >= 5 {
                    assert(s@.take(5)[0] == s@[0]);
                    assert(s@.take(5)[1] == s@[1]);
                    assert(s@.take(5)[2] == s@[2]);
                    assert(s@.take(5)[3] == s@[3]);
                    assert(s@.take(5)[4] == s@[4]);
                }
            }
            return Err(PathError::MissingScheme);
        }
        assert(s@.take(5) =~= scheme());
        let ghost t = s@.skip(5);
        let mut i: usize = 5;
        while i < n && s.get_char(i) != '/'
            invariant
                n == s@.len(),
                5 <= i <= n,
                t == s@.skip(5),
                forall|j: int| 0 <= j < i - 5 ==> t[j] != '/',
            decreases n - i,
        {
            i = i + 1;
        }
        if i == n {
            let bucket = String::from_str(s.substring_char(5, n));
            assert(bucket@ =~= t);
            return Ok(Path { bucket, prefix: String::new() });
        }
        assert(first_slash_at(t, i - 5));
        let ghost k: int = choose|k: int| first_slash_at(t, k);
        assert(k == i - 5) by {
            if k < i - 5 {
                assert(t[k] != '/');
            } else if k > i - 5 {
                assert(t[i - 5] == '/');
            }
        }
        let prefix = s.substring_char(i + 1, n);
        assert(prefix@ =~= t.skip(k + 1));
        if i + 1 < n && s.get_char(n - 1) != '/' {
            return Err(PathError::PrefixWithoutSlash);
        }
        let bucket = String::from_str(s.substring_char(5, i));
        assert(bucket@ =~= t.take(k));
        Ok(Path { bucket, prefix: String::from_str(prefix) })
    }

    /// The full name of the object called `name` under this path's prefix.
    pub fn object_name(&self, name: &str) -> (r: String)
        ensures
            r@ == self.prefix@ + name@,
    {
        let mut r = self.prefix.clone();
        r.append(name);
        r
    }
}

impl core::str::FromStr for Path {
    type Err = PathError;

    fn from_str(s: &str) -> Result<Path, PathError> {
        Path::parse(s)
    }
}

/// Whether `needle` occurs in `haystack` starting at `i`.
pub open spec fn occurs_at(haystack: Seq<u8>, needle: Seq<u8>, i: int) -> bool {
    0 <= i && i + needle.len() <= haystack.len() && haystack.subrange(i, i + needle.len()) == needle
}

pub open spec fn occurs_in(haystack: Seq<u8>, needle: Seq<u8>) -> bool {
    exists|i: int| occurs_at(haystack, needle, i)
}

/// Relies on memchr::memmem::Finder::find: the position of the first
/// occurrence of the needle in the haystack, if there is one.
#[verifier::external_body]
fn find_bytes(needle: &[u8], haystack: &[u8]) -> (r: Option<usize>)
    ensures
        match r {
            Some(i) => occurs_at(haystack@, needle@, i as int) && forall|j: int|
                0 <= j < i ==> !occurs_at(haystack@, needle@, j),
            None => !occurs_in(haystack@, needle@),
        },
{
    memchr::memmem::Finder::new(needle).find(haystack)
}

fn contains_bytes(haystack: &[u8], needle: &[u8]) -> (r: bool)
    ensures
        r == occurs_in(haystack@, needle@),
{
    match find_bytes(needle, haystack) {
        Some(i) => {
            assert(occurs_at(haystack@, needle@, i as int));
            true
        },
        None => false,
    }
}

/// Whether a multipart boundary can be used for a body made of these parts:
/// it occurs in none of them.
pub fn boundary_is_free(boundary: &str, metadata: &str, content_type: &str, contents: &[u8]) -> (r: bool)
    ensures
        r == !(occurs_in(metadata.spec_bytes(), boundary.spec_bytes()) || occurs_in(
            content_type.spec_bytes(),
            boundary.spec_bytes(),
        ) || occurs_in(contents@, boundary.spec_bytes())),
{
    let b = boundary.as_bytes();
    !(contains_bytes(metadata.as_bytes(), b) || contains_bytes(content_type.as_bytes(), b)
        || contains_bytes(contents, b))
}

/// The body of a `multipart/related` upload: a JSON part with the object's
/// metadata, then a part with its contents, framed by `boundary`.
pub open spec fn multipart_body_of(boundary: Seq<u8>, metadata: Seq<u8>, content_type: Seq<u8>, contents: Seq<u8>) -> Seq<u8> {
    "--".spec_bytes() + boundary + "\r\n".spec_bytes()
        + "Content-Type: application/json; charset=UTF-8\r\n\r\n".spec_bytes() + metadata
        + "\r\n\r\n".spec_bytes() + "--".spec_bytes() + boundary + "Content-Type: ".spec_bytes()
        + content_type + "\r\n\r\n".spec_bytes() + contents + "\r\n".spec_bytes() + "--".spec_bytes()
        + boundary + "--\r\n".spec_bytes()
}

fn append_bytes(v: &mut Vec<u8>, bytes: &[u8])
    ensures
        final(v)@ == old(v)@ + bytes@,
{
    v.extend_from_slice(bytes);
    assert(final(v)@ =~= old(v)@ + bytes@);
}

/// Builds the body of a `multipart/related` upload of `contents` with its
/// JSON `metadata`.
pub fn multipart_body(boundary: &str, metadata: &str, content_type: &str, contents: &[u8]) -> (r: Vec<u8>)
    ensures
        r@ == multipart_body_of(
            boundary.spec_bytes(),
            metadata.spec_bytes(),
            content_type.spec_bytes(),
            contents@,
        ),
{
    let b = boundary.as_bytes();
    let mut body: Vec<u8> = Vec::new();
    append_bytes(&mut body, "--".as_bytes());
    append_bytes(&mut body, b);
    append_bytes(&mut body, "\r\n".as_bytes());
    append_bytes(&mut body, "Content-Type: application/json; charset=UTF-8\r\n\r\n".as_bytes());
    append_bytes(&mut body, metadata.as_bytes());
    append_bytes(&mut body, "\r\n\r\n".as_bytes());
    append_bytes(&mut body, "--".as_bytes());
    append_bytes(&mut body, b);
    append_bytes(&mut body, "Content-Type: ".as_bytes());
    append_bytes(&mut body, content_type.as_bytes());
    append_bytes(&mut body, "\r\n\r\n".as_bytes());
    append_bytes(&mut body, contents);
    append_bytes(&mut body, "\r\n".as_bytes());
    append_bytes(&mut body, "--".as_bytes());
    append_bytes(&mut body, b);
    append_bytes(&mut body, "--\r\n".as_bytes());
    body
}

/// The value of the `Content-Type` header of a multipart upload.
pub fn multipart_content_type(boundary: &str) -> (r: String)
    ensures
        r@ == "multipart/related; boundary="@ + boundary@,
{
    let mut r = String::from_str("multipart/related; boundary=");
    r.append(boundary);
    r
}

/// Bytes that stand for themselves in a URL component.
pub open spec fn unreserved(b: u8) -> bool {
    (0x30 <= b <= 0x39) || (0x41 <= b <= 0x5a) || (0x61 <= b <= 0x7a) || b == 0x2d || b == 0x2e
        || b == 0x5f || b == 0x7e
}

pub open spec fn upper_hex_digit(d: u8) -> char {
    seq!['0', '1', '2', '3', '4', '5', '6', '7', '8', '9', 'A', 'B', 'C', 'D', 'E', 'F'][d as int]
}

/// Percent-encoding of bytes: unreserved bytes stay, each other byte becomes
/// `%` and two upper-case hex digits.
pub open spec fn percent_encoded(bytes: Seq<u8>) -> Seq<char>
    decreases bytes.len(),
{
    if bytes.len() == 0 {
        Seq::empty()
    } else {
        let b = bytes[0];
        let head = if unreserved(b) {
            seq![b as char]
        } else {
            seq!['%', upper_hex_digit(b / 16), upper_hex_digit(b % 16)]
        };
        head + percent_encoded(bytes.drop_first())
    }
}

/// Relies on urlencoding::encode: percent-encodes each byte of the text's
/// UTF-8 form but ASCII letters, digits and `-`, `.`, `_`, `~`.
#[verifier::external_body]
fn url_encode(s: &str) -> (r: String)
    ensures
        r@ == percent_encoded(s.spec_bytes()),
{
    urlencoding::encode(s).into_owned()
}

/// The URL to which a multipart upload into `bucket` is posted.
pub fn upload_url(bucket: &str) -> (r: String)
    ensures
        r@ == "https://storage.googleapis.com/upload/storage/v1/b/"@ + percent_encoded(bucket.spec_bytes())
            + "/o?uploadType=multipart"@,
{
    let mut r = String::from_str("https://storage.googleapis.com/upload/storage/v1/b/");
    let encoded = url_encode(bucket);
    r.append(encoded.as_str());
    r.append("/o?uploadType=multipart");
    r
}

pub open spec fn hex_digit_char(d: int) -> char {
    seq!['0', '1', '2', '3', '4', '5', '6', '7', '8', '9', 'a', 'b', 'c', 'd', 'e', 'f'][d]
}

/// The last `n` lower-case hex digits of `w`, most significant first.
pub open spec fn hex_digits(w: nat, n: nat) -> Seq<char>
    decreases n,
{
    if n == 0 {
        Seq::empty()
    } else {
        hex_digits(w / 16, (n - 1) as nat).push(hex_digit_char((w % 16) as int))
    }
}

/// A multipart boundary made of four words: each as eight hex digits,
/// joined by `-`.
pub open spec fn boundary_text(a: u32, b: u32, c: u32, d: u32) -> Seq<char> {
    hex_digits(a as nat, 8) + seq!['-'] + hex_digits(b as nat, 8) + seq!['-'] + hex_digits(c as nat, 8)
        + seq!['-'] + hex_digits(d as nat, 8)
}

fn hex_digit(d: u32) -> (r: &'static str)
    requires
        d < 16,
    ensures
        r@ == seq![hex_digit_char(d as int)],
{
    let r = if d == 0 {
        "0"
    } else if d == 1 {
        "1"
    } else if d == 2 {
        "2"
    } else if d == 3 {
        "3"
    } else if d == 4 {
        "4"
    } else if d == 5 {
        "5"
    } else if d == 6 {
        "6"
    } else if d == 7 {
        "7"
    } else if d == 8 {
        "8"
    } else if d == 9 {
        "9"
    } else if d == 10 {
        "a"
    } else if d == 11 {
        "b"
    } else if d == 12 {
        "c"
    } else if d == 13 {
        "d"
    } else if d == 14 {
        "e"
    } else {
        "f"
    };
    proof {
        reveal_strlit("0");
        reveal_strlit("1");
        reveal_strlit("2");
        reveal_strlit("3");
        reveal_strlit("4");
        reveal_strlit("5");
        reveal_strlit("6");
        reveal_strlit("7");
        reveal_strlit("8");
        reveal_strlit("9");
        reveal_strlit("a");
        reveal_strlit("b");
        reveal_strlit("c");
        reveal_strlit("d");
        reveal_strlit("e");
        reveal_strlit("f");
        assert(r@ =~= seq![hex_digit_char(d as int)]);
    }
    r
}

fn append_hex(out: &mut String, w: u32, n: u32)
    ensures
        final(out)@ == old(out)@ + hex_digits(w as nat, n as nat),
    decreases n,
{
    if n == 0 {
        assert(old(out)@ + hex_digits(w as nat, 0) =~= old(out)@);
    } else {
        append_hex(out, w / 16, n - 1);
        out.append(hex_digit(w % 16));
        assert(final(out)@ =~= old(out)@ + hex_digits(w as nat, n as nat));
    }
}

/// Writes a multipart boundary from four words.
pub fn format_boundary(words: [u32; 4]) -> (r: String)
    ensures
        r@ == boundary_text(words@[0], words@[1], words@[2], words@[3]),
{
    let mut r = String::new();
    append_hex(&mut r, words[0], 8);
    r.append("-");
    append_hex(&mut r, words[1], 8);
    r.append("-");
    append_hex(&mut r, words[2], 8);
    r.append("-");
    append_hex(&mut r, words[3], 8);
    proof {
        reveal_strlit("-");
    }
    assert(r@ =~= boundary_text(words@[0], words@[1], words@[2], words@[3]));
    r
}

/// Relies on rand::random: four words drawn from the thread-local generator.
/// Nothing is known of them.
#[verifier::external_body]
fn random_words() -> (r: [u32; 4]) {
    rand::random::<[u32; 4]>()
}

/// A fresh random multipart boundary: four random words, each as eight hex
/// digits, joined by `-`.
pub fn multipart_boundary() -> (r: String)
    ensures
        exists|a: u32, b: u32, c: u32, d: u32| r@ == boundary_text(a, b, c, d),
{
    let words = random_words();
    let r = format_boundary(words);
    assert(r@ == boundary_text(words@[0], words@[1], words@[2], words@[3]));
    r
}

} // verus!
