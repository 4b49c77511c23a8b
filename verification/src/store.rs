//! The plain values of the document store that accompanies the registry,
//! and what it computes without touching the network: the key under which
//! a document is kept, and the list of documents that a search found.

use vstd::prelude::*;
use vstd::string::StringExecFns;

verus! {

/// Where the search engine listens, and the password it asks for.
pub struct SonicConfig {
    host: String,
    port: usize,
    password: String,
}

impl SonicConfig {
    /// The host name as a mathematical value.
    pub closed spec fn host_spec(&self) -> String {
        self.host
    }

    /// The port as a mathematical value.
    pub closed spec fn port_spec(&self) -> usize {
        self.port
    }

    /// The password as a mathematical value.
    pub closed spec fn password_spec(&self) -> String {
        self.password
    }

    /// Creates the configuration of a search engine at `host` and `port`.
    pub fn new(host: String, port: usize, password: String) -> (config: SonicConfig)
        ensures
            config.host_spec() == host,
            config.port_spec() == port,
            config.password_spec() == password,
    {
        SonicConfig { host, port, password }
    }

    /// The host name of the search engine.
    pub fn host(&self) -> (host: &String)
        ensures
            *host == self.host_spec(),
    {
        &self.host
    }

    /// The port of the search engine.
    pub fn port(&self) -> (port: usize)
        ensures
            port == self.port_spec(),
    {
        self.port
    }

    /// The password of the search engine.
    pub fn password(&self) -> (password: &String)
        ensures
            *password == self.password_spec(),
    {
        &self.password
    }
}

/// A document that a search found, with the key under which it is kept.
pub struct SearchResult {
    /// The text of the document.
    pub doc: String,
    /// The key of the document.
    pub hash: String,
}

/// How many results a search returns, and from where on.
pub struct QueryConf<'a> {
    /// The largest number of results, if any is set.
    pub limit: Option<i32>,
    /// The position of the first result, if any is set.
    pub offset: Option<&'a str>,
}

impl<'a> Default for QueryConf<'a> {
    fn default() -> (conf: QueryConf<'a>)
        ensures
            conf.limit == Some(0i32),
            conf.offset is None,
    {
        QueryConf { limit: Some(0), offset: None }
    }
}

/// The MD5 digest of `bytes`: sixteen bytes.
pub uninterp spec fn md5_digest(bytes: Seq<u8>) -> Seq<u8>;

/// `md5::compute`: the digest is a function of the bytes alone.
#[verifier::external_body]
fn md5_of(bytes: &[u8]) -> (digest: [u8; 16])
    ensures
        digest@ == md5_digest(bytes@),
{
    md5::compute(bytes).0
}

/// The lower-case hexadecimal digit of `n`.
pub open spec fn hex_digit(n: int) -> char
    recommends
        0 <= n < 16,
{
    seq!['0', '1', '2', '3', '4', '5', '6', '7', '8', '9', 'a', 'b', 'c', 'd', 'e', 'f'][n]
}

/// `bytes` written as lower-case hexadecimal, two digits to the byte, the
/// high digit first.
pub open spec fn lower_hex(bytes: Seq<u8>) -> Seq<char> {
    Seq::new(
        2 * bytes.len(),
        |i: int|
            if i % 2 == 0 {
                hex_digit(bytes[i / 2] as int / 16)
            } else {
                hex_digit(bytes[i / 2] as int % 16)
            },
    )
}

/// The key under which the document `text` is kept: its MD5 digest in
/// lower-case hexadecimal.
pub open spec fn key_of(text: Seq<char>) -> Seq<char> {
    lower_hex(md5_digest(vstd::utf8::encode_utf8(text)))
}

/// The one-character string of a hexadecimal digit.
fn digit_str(n: u8) -> (s: &'static str)
    requires
        n < 16,
    ensures
        s@ == seq![hex_digit(n as int)],
{
    proof {
        reveal_strlit("0");
        reveal_strlit("1");
        reveal_strlit("2");
        reveal_strlit("3");
        reveal_strlit("4");
        reveal_strlit("5");
        reveal_strlit("6");
        reveal_strlit("7");
        reveal_strlit("8");
        reveal_strlit("9");
        reveal_strlit("a");
        reveal_strlit("b");
        reveal_strlit("c");
        reveal_strlit("d");
        reveal_strlit("e");
        reveal_strlit("f");
    }
    let s = match n {
        0 => "0",
        1 => "1",
        2 => "2",
        3 => "3",
        4 => "4",
        5 => "5",
        6 => "6",
        7 => "7",
        8 => "8",
        9 => "9",
        10 => "a",
        11 => "b",
        12 => "c",
        13 => "d",
        14 => "e",
        _ => "f",
    };
    assert(s@ =~= seq![hex_digit(n as int)]);
    s
}

/// Writes `bytes` as lower-case hexadecimal.
pub fn to_lower_hex(bytes: &[u8]) -> (text: String)
    ensures
        text@ == lower_hex(bytes@),
{
    let mut text = String::from_str("");
    proof {
        reveal_strlit("");
    }
    let mut i: usize = 0;
    while i < bytes.len()
        invariant
            i <= bytes@.len(),
            text@.len() == 2 * i,
            forall|j: int| 0 <= j < 2 * i ==> text@[j] == lower_hex(bytes@)[j],
        decreases bytes@.len() - i,
    {
        let b: u8 = bytes[i];
        let ghost before = text@;
        text.append(digit_str(b / 16));
        text.append(digit_str(b % 16));
        assert(text@ =~= before + seq![hex_digit(b as int / 16)] + seq![hex_digit(b as int % 16)]);
        i += 1;
    }
    assert(text@ =~= lower_hex(bytes@));
    text
}

/// Computes the key under which the document `text` is kept: thirty-two
/// hexadecimal digits, two for each of the digest's sixteen bytes.
pub fn object_key(text: &str) -> (key: String)
    ensures
        key@ == key_of(text@),
        key@.len() == 32,
{
    let digest = md5_of(text.as_bytes());
    to_lower_hex(digest.as_slice())
}

/// Adds to `documents` the outcome of fetching the document kept under
/// `hash`: a document that was fetched is recorded with its key, one that
/// was not is passed over.
pub fn record(documents: &mut Vec<SearchResult>, hash: String, fetched: Option<String>)
    ensures
        final(documents)@ == match fetched {
            Some(doc) => old(documents)@.push((SearchResult { doc, hash })),
            None => old(documents)@,
        },
{
    match fetched {
        Some(doc) => {
            documents.push(SearchResult { doc, hash });
        },
        None => {},
    }
}

} // verus!
