//! Packing a model into a shareable string: a single file is stored in an
//! in-memory zip archive and the archive bytes are base64-encoded.  The
//! archive and base64 primitives are outside collaborators; the URL and
//! archive-lookup plumbing around them is verified.

use vstd::prelude::*;

verus! {

use vstd::string::StringSliceAdditionalSpecFns;

/// What base64 standard decoding returns for a string: `None` exactly on
/// invalid input.
pub uninterp spec fn b64_decode_of(s: Seq<char>) -> Option<Seq<u8>>;

/// What base64 standard encoding returns for a byte string.
pub uninterp spec fn b64_encode_of(bytes: Seq<u8>) -> Seq<char>;

/// What looking up a file name in a zip archive returns: the file's text, or
/// `None` when the archive is malformed, the name is absent, the entry is
/// encrypted or compressed with a method other than stored or deflate, or the
/// contents are not text.
pub uninterp spec fn zip_find_of(archive: Seq<u8>, name: Seq<char>) -> Option<Seq<char>>;

/// What storing one named text file in a fresh zip archive returns.
pub uninterp spec fn zip_store_of(name: Seq<char>, data: Seq<char>) -> Seq<u8>;

/// Relies on base64's standard-alphabet engine `decode`: the result is a
/// function of the input string alone, `Err` exactly on invalid base64.
#[verifier::external_body]
fn b64_decode(s: &str) -> (r: Option<Vec<u8>>)
    ensures
        b64_decode_of(s@) == match r {
            Some(v) => Some(v@),
            None => None::<Seq<u8>>,
        },
{
    match base64::Engine::decode(&base64::engine::general_purpose::STANDARD, s) {
        Ok(v) => Some(v),
        Err(_) => None,
    }
}

/// Relies on base64's standard-alphabet engine `encode`: the result is a
/// function of the input bytes alone, and `decode` inverts it.
#[verifier::external_body]
pub(crate) fn b64_encode(bytes: &[u8]) -> (r: String)
    ensures
        r@ == b64_encode_of(bytes@),
        b64_decode_of(r@) == Some(bytes@),
{
    base64::Engine::encode(&base64::engine::general_purpose::STANDARD, bytes)
}

/// Relies on zip's `ZipArchive::new`, `by_name`, `compression` and
/// `read_to_string`: the lookup is a function of the archive bytes and the
/// name alone.  An encrypted entry makes `by_name` return an error, and a
/// method this build cannot decompress is turned away before the read, so no
/// input reaches the reader's unsupported-method abort.
#[verifier::external_body]
fn zip_find(data: &Vec<u8>, filename: &str) -> (r: Option<String>)
    ensures
        zip_find_of(data@, filename@) == match r {
            Some(s) => Some(s@),
            None => None::<Seq<char>>,
        },
{
    let reader = std::io::Cursor::new(data.clone());
    let mut zip = zip::read::ZipArchive::new(reader).ok()?;
    let mut file = zip.by_name(filename).ok()?;
    match file.compression() {
        zip::CompressionMethod::Stored | zip::CompressionMethod::Deflated => {},
        _ => return None,
    }
    let mut contents = String::new();
    std::io::Read::read_to_string(&mut file, &mut contents).ok()?;
    Some(contents)
}

/// Relies on zip's `ZipWriter` with the stored (uncompressed) method and the
/// crate's constant default metadata: the archive bytes are a function of the
/// file name and contents alone, and `by_name` extraction inverts the store.
/// The preconditions keep the name's length field from overflowing its
/// 16-bit header slot and the contents under the zip64 threshold at which
/// the writer starts failing, so the in-memory write cannot fail.
#[verifier::external_body]
fn zip_store(file_data: &str, filename: &str) -> (r: Vec<u8>)
    requires
        filename.spec_bytes().len() <= 0xFFFF,
        file_data.spec_bytes().len() <= 0xFFFF_FFFF,
    ensures
        r@ == zip_store_of(filename@, file_data@),
        zip_find_of(r@, filename@) == Some(file_data@),
{
    let writer = std::io::Cursor::new(vec![]);
    let mut zip = zip::ZipWriter::new(writer);
    let options = zip::write::FileOptions::default().compression_method(
        zip::CompressionMethod::Stored,
    ).unix_permissions(0o755);
    zip.start_file(filename, options).unwrap();
    std::io::Write::write_all(&mut zip, file_data.as_bytes()).unwrap();
    let writer = zip.finish().unwrap();
    writer.into_inner()
}

/// What decoding a packed string and looking a file name up in it yields.
pub open spec fn unzip_of(encoded: Seq<char>, filename: Seq<char>) -> Option<Seq<char>> {
    match b64_decode_of(encoded) {
        None => None,
        Some(bytes) => zip_find_of(bytes, filename),
    }
}

/// Decodes a base64 string and extracts the named file from the zip archive
/// it holds.
pub fn unzip_encoded(encoded_data: &str, filename: &str) -> (r: Option<String>)
    ensures
        match r {
            Some(s) => unzip_of(encoded_data@, filename@) == Some(s@),
            None => unzip_of(encoded_data@, filename@) is None,
        },
{
    let decoded = b64_decode(encoded_data);
    match decoded {
        None => None,
        Some(bytes) => zip_find(&bytes, filename),
    }
}

/// Stores `file_data` as the single file `filename` of a fresh zip archive
/// and base64-encodes the archive; `unzip_encoded` recovers the data.  The
/// name and contents must fit the zip format's machine limits.
pub fn encode_zip(file_data: &str, filename: &str) -> (r: String)
    requires
        filename.spec_bytes().len() <= 0xFFFF,
        file_data.spec_bytes().len() <= 0xFFFF_FFFF,
    ensures
        r@ == b64_encode_of(zip_store_of(filename@, file_data@)),
        unzip_of(r@, filename@) == Some(file_data@),
{
    let bytes = zip_store(file_data, filename);
    b64_encode(bytes.as_slice())
}

/// The index of the first occurrence of `c` in `s` at or after `from` (the
/// length of `s` if there is none).
pub open spec fn find_from(s: Seq<char>, c: char, from: int) -> int
    decreases s.len() - from,
{
    if from < 0 || from >= s.len() {
        s.len() as int
    } else if s[from] == c {
        from
    } else {
        find_from(s, c, from + 1)
    }
}

proof fn lemma_find_from_advance(s: Seq<char>, c: char, from: int, i: int)
    requires
        0 <= from <= i <= s.len(),
        forall|j: int| from <= j < i ==> s[j] != c,
    ensures
        find_from(s, c, from) == find_from(s, c, i),
    decreases i - from,
{
    if from < i {
        lemma_find_from_advance(s, c, from + 1, i);
    }
}

proof fn lemma_find_from_range(s: Seq<char>, c: char, from: int)
    requires
        0 <= from <= s.len(),
    ensures
        from <= find_from(s, c, from) <= s.len(),
        find_from(s, c, from) < s.len() ==> s[find_from(s, c, from)] == c,
        forall|j: int| from <= j < find_from(s, c, from) ==> s[j] != c,
    decreases s.len() - from,
{
    if from < s.len() && s[from] != c {
        lemma_find_from_range(s, c, from + 1);
    }
}

/// Finds the first occurrence of `c` in `s` at or after `from`.
fn find_char_from(s: &str, c: char, from: usize) -> (r: usize)
    requires
        from <= s@.len(),
    ensures
        r as int == find_from(s@, c, from as int),
        from <= r <= s@.len(),
        r < s@.len() ==> s@[r as int] == c,
{
    let n = s.unicode_len();
    let mut i: usize = from;
    while i < n
        invariant
            n == s@.len(),
            from <= i <= n,
            forall|j: int| from <= j < i ==> s@[j] != c,
        decreases n - i,
    {
        if s.get_char(i) == c {
            proof {
                lemma_find_from_advance(s@, c, from as int, i as int);
            }
            return i;
        }
        i = i + 1;
    }
    proof {
        lemma_find_from_advance(s@, c, from as int, n as int);
    }
    n
}

/// Whether a query segment is a `z=` parameter.
pub open spec fn is_z_param(seg: Seq<char>) -> bool {
    seg.len() >= 2 && seg[0] == 'z' && seg[1] == '='
}

/// The payload of the first `z=` parameter among the `&`-separated segments
/// of `q` starting at `pos`, if any.
pub open spec fn z_param_from(q: Seq<char>, pos: int) -> Option<Seq<char>>
    decreases q.len() - pos,
    via z_param_from_decreases
{
    if pos < 0 || pos > q.len() {
        None
    } else {
        let end = find_from(q, '&', pos);
        let seg = q.subrange(pos, end);
        if is_z_param(seg) {
            Some(seg.subrange(2, seg.len() as int))
        } else if end >= q.len() {
            None
        } else {
            z_param_from(q, end + 1)
        }
    }
}

#[via_fn]
proof fn z_param_from_decreases(q: Seq<char>, pos: int) {
    if 0 <= pos <= q.len() {
        lemma_find_from_range(q, '&', pos);
    }
}

/// The payload of the first `z=` parameter of the query part of a URL: the
/// text between the first `?` and the following `?` or end of string, split
/// at `&`.
pub open spec fn z_query_of(url: Seq<char>) -> Option<Seq<char>> {
    let q1 = find_from(url, '?', 0);
    let q2 = find_from(url, '?', q1 + 1);
    z_param_from(url.subrange(q1 + 1, q2), 0)
}

/// Extracts the `z=` parameter of the URL's query string and unpacks the
/// named file from it.  The URL must contain a `?`.
pub fn unzip_encoded_url(url: &str, filename: &str) -> (r: Option<String>)
    requires
        find_from(url@, '?', 0) < url@.len(),
    ensures
        match z_query_of(url@) {
            None => r is None,
            Some(z) => match r {
                Some(s) => unzip_of(z, filename@) == Some(s@),
                None => unzip_of(z, filename@) is None,
            },
        },
{
    let n = url.unicode_len();
    proof {
        lemma_find_from_range(url@, '?', 0);
    }
    let q1 = find_char_from(url, '?', 0);
    proof {
        lemma_find_from_range(url@, '?', q1 as int + 1);
    }
    let q2 = find_char_from(url, '?', q1 + 1);
    let query = url.substring_char(q1 + 1, q2);
    let qlen = query.unicode_len();
    let mut pos: usize = 0;
    loop
        invariant
            q1 as int == find_from(url@, '?', 0),
            q2 as int == find_from(url@, '?', q1 as int + 1),
            query@ == url@.subrange(q1 as int + 1, q2 as int),
            qlen == query@.len(),
            pos <= qlen,
            z_param_from(query@, 0) == z_param_from(query@, pos as int),
        decreases qlen - pos,
    {
        proof {
            lemma_find_from_range(query@, '&', pos as int);
        }
        let end = find_char_from(query, '&', pos);
        let long_enough = end - pos >= 2;
        if long_enough && query.get_char(pos) == 'z' && query.get_char(pos + 1) == '=' {
            let z = query.substring_char(pos + 2, end);
            proof {
                let seg = query@.subrange(pos as int, end as int);
                assert(is_z_param(seg));
                assert(z@ =~= seg.subrange(2, seg.len() as int));
                assert(z_param_from(query@, pos as int) == Some(z@));
                assert(z_query_of(url@) == Some(z@));
            }
            return unzip_encoded(z, filename);
        }
        proof {
            let seg = query@.subrange(pos as int, end as int);
            assert(!is_z_param(seg));
        }
        if end >= qlen {
            proof {
                assert(z_param_from(query@, pos as int) is None);
                assert(z_query_of(url@) is None);
            }
            return None;
        }
        pos = end + 1;
    }
}

} // verus!
