//! Where fetched pages are written: a run directory, and one file per URL
//! named by the SHA-1 of the URL's text.
use vstd::prelude::*;
use vstd::string::{StrSliceExecFns, StringExecFns};

use crate::error::CrawlerError;
use crate::web_url::WebUrl;

verus! {

/// The SHA-1 digest of a byte sequence.
pub uninterp spec fn sha1_of(bytes: Seq<u8>) -> Seq<u8>;

/// Relies on `sha1::Sha1::digest`: the digest of the bytes, 20 bytes long.
#[verifier::external_body]
fn sha1_digest(bytes: &[u8]) -> (r: Vec<u8>)
    ensures
        r@ == sha1_of(bytes@),
        r@.len() == 20,
{
    <sha1::Sha1 as sha1::Digest>::digest(bytes).to_vec()
}

/// The lower-case hexadecimal digit for `n < 16`.
pub open spec fn hex_digit(n: u8) -> char {
    seq!['0', '1', '2', '3', '4', '5', '6', '7', '8', '9', 'a', 'b', 'c', 'd', 'e', 'f'][n as int]
}

/// Two lower-case hexadecimal digits per byte, high digit first.
pub open spec fn hex_text(bytes: Seq<u8>) -> Seq<char>
    decreases bytes.len(),
{
    if bytes.len() == 0 {
        Seq::empty()
    } else {
        let b = bytes.last();
        hex_text(bytes.drop_last()) + seq![hex_digit(b / 16), hex_digit(b % 16)]
    }
}

/// Relies on `hex::encode`: two lower-case digits per byte, in order.
#[verifier::external_body]
fn hex_encode(bytes: &[u8]) -> (r: String)
    ensures
        r@ == hex_text(bytes@),
{
    hex::encode(bytes)
}

/// Relies on `chrono::Utc::now` and `DateTime::timestamp_millis`: the time
/// now, in milliseconds since the Unix epoch. Nothing is promised of it.
#[verifier::external_body]
fn now_millis() -> (r: i64) {
    chrono::Utc::now().timestamp_millis()
}

/// The file name of the page fetched from `url`: the hex SHA-1 of the URL's
/// UTF-8 text, with the extension `.html`.
pub open spec fn page_file_name(url: Seq<char>) -> Seq<char> {
    hex_text(sha1_of(vstd::utf8::encode_utf8(url))) + seq!['.', 'h', 't', 'm', 'l']
}

/// The decimal digits of `n`, most significant first, without leading zeros.
pub open spec fn decimal_digits(n: nat) -> Seq<char>
    decreases n,
{
    if n < 10 {
        seq![hex_digit(n as u8)]
    } else {
        decimal_digits(n / 10) + seq![hex_digit((n % 10) as u8)]
    }
}

/// The decimal text of an integer, with a `-` before a negative one.
pub open spec fn decimal_text(n: int) -> Seq<char> {
    if n < 0 {
        seq!['-'] + decimal_digits((-n) as nat)
    } else {
        decimal_digits(n as nat)
    }
}

/// The directory of a run on `host` that started at `millis`:
/// `webpages/<host>_<millis>`.
pub open spec fn run_dir(host: Seq<char>, millis: int) -> Seq<char> {
    seq!['w', 'e', 'b', 'p', 'a', 'g', 'e', 's', '/'] + host + seq!['_'] + decimal_text(millis)
}

fn decimal_string(n: u64) -> (r: String)
    ensures
        r@ == decimal_digits(n as nat),
    decreases n,
{
    let digits = "0123456789";
    proof {
        reveal_strlit("0123456789");
    }
    let d: usize = (n % 10) as usize;
    let last = digits.substring_char(d, d + 1);
    proof {
        assert(last@ =~= seq![hex_digit(d as u8)]);
    }
    if n < 10 {
        String::from_str(last)
    } else {
        let mut s = decimal_string(n / 10);
        s.append(last);
        s
    }
}

/// The storage for persisting fetched pages.
#[derive(Debug)]
pub struct Storage {
    path: String,
}

impl Storage {
    /// Storage under the directory `path`.
    pub fn new(path: String) -> (r: Storage)
        ensures
            r.dir() == path@,
    {
        Storage { path }
    }

    /// The directory the pages go to.
    pub closed spec fn dir(&self) -> Seq<char> {
        self.path@
    }

    /// The directory the pages go to.
    pub fn path(&self) -> (r: &String)
        ensures
            r@ == self.dir(),
    {
        &self.path
    }

    /// Storage for a run on `host` started at `millis` ms after the epoch,
    /// under `webpages/<host>_<millis>`.
    pub fn for_run(host: &str, millis: i64) -> (r: Storage)
        ensures
            r.dir() == run_dir(host@, millis as int),
    {
        let mut path = String::from_str("webpages/");
        proof {
            reveal_strlit("webpages/");
            reveal_strlit("_");
            reveal_strlit("-");
        }
        path.append(host);
        path.append("_");
        if millis < 0 {
            path.append("-");
            let magnitude: u64 = (-(millis as i128)) as u64;
            let digits = decimal_string(magnitude);
            path.append(digits.as_str());
            proof {
                assert(path@ =~= run_dir(host@, millis as int));
            }
        } else {
            let digits = decimal_string(millis as u64);
            path.append(digits.as_str());
            proof {
                assert(path@ =~= run_dir(host@, millis as int));
            }
        }
        Storage { path }
    }

    /// Storage for a run from `url`, named after its host and the time now.
    /// Fails exactly when the URL has no host.
    pub fn try_from(url: &WebUrl) -> (r: Result<Storage, CrawlerError>)
        ensures
            r is Err <==> url.host is None,
            r is Err ==> r->Err_0 is NoUrlHost,
            r is Ok ==> exists|millis: i64| r->Ok_0.dir() == run_dir(url.host->0@, millis as int),
    {
        match &url.host {
            Some(host) => {
                let millis = now_millis();
                Ok(Storage::for_run(host.as_str(), millis))
            },
            None => Err(CrawlerError::NoUrlHost),
        }
    }

    /// The file name of the page fetched from `url`, relative to the
    /// directory: the hex SHA-1 of the URL's text, with extension `.html`.
    pub fn url_to_path(&self, url: &str) -> (r: String)
        ensures
            r@ == page_file_name(url@),
    {
        let digest = sha1_digest(url.as_bytes());
        let mut name = hex_encode(digest.as_slice());
        proof {
            reveal_strlit(".html");
        }
        name.append(".html");
        name
    }
}

} // verus!
