//! Packing a model into a shareable blob: the model's JSON text stored in a
//! base64-encoded zip archive, together with a content-derived identifier.

use vstd::prelude::*;

verus! {

use crate::compression::{b64_encode_of, encode_zip, unzip_of, zip_store_of};
use crate::model::{PetriNet, json_of};
use vstd::string::StringSliceAdditionalSpecFns;

/// The canonical packed form of the empty model: a zip archive holding a
/// `model.json` with no places, transitions, or arcs.
pub const EMPTY_NET: &'static str =
    "UEsDBAoAAAAAAER3WVjjbbhPbAAAAGwAAAAKAAAAbW9kZWwuanNvbnsKICAibW9kZWxUeXBlIjogInBldHJpTmV0IiwKICAidmVyc2lvbiI6ICJ2MCIsCiAgInBsYWNlcyI6IHsKICB9LAogICJ0cmFuc2l0aW9ucyI6IHsKICB9LAogICJhcmNzIjogWwogIF0KfVBLAQIUAAoAAAAAAER3WVjjbbhPbAAAAGwAAAAKAAAAAAAAAAAAAAAAAAAAAABtb2RlbC5qc29uUEsFBgAAAAABAAEAOAAAAJQAAAAAAA==";

/// What SHA-256 returns for a byte string.
pub uninterp spec fn sha256_of(data: Seq<u8>) -> Seq<u8>;

/// Relies on sha2's SHA-256: the digest is a function of the input bytes
/// alone and is 32 bytes long.
#[verifier::external_body]
fn sha256(data: &[u8]) -> (r: Vec<u8>)
    ensures
        r@ == sha256_of(data@),
        r@.len() == 32,
{
    let digest = <sha2::Sha256 as sha2::Digest>::digest(data);
    digest.as_slice().to_vec()
}

/// The content-derived identifier of a byte string: its SHA-256 digest,
/// base64-encoded.
pub open spec fn content_id_of(data: Seq<u8>) -> Seq<char> {
    b64_encode_of(sha256_of(data))
}

/// Computes the content-derived identifier of a byte string.
fn content_id(data: &[u8]) -> (r: String)
    ensures
        r@ == content_id_of(data@),
{
    let digest = sha256(data);
    crate::compression::b64_encode(digest.as_slice())
}

/// A packed, shareable model: the base64-zipped content, its content-derived
/// identifier, and descriptive metadata.
#[derive(Debug, Clone)]
pub struct Zblob {
    /// The storage id of the blob.
    pub id: i64,
    /// The content-derived identifier of the packed content.
    pub ipfs_cid: String,
    /// The base64-encoded zip archive holding the model's JSON text.
    pub base64_zipped: String,
    /// The title of the blob.
    pub title: String,
    /// The description of the blob.
    pub description: String,
    /// The keywords associated with the blob.
    pub keywords: String,
    /// The referrer of the blob.
    pub referrer: String,
    /// The creation time of the blob.
    pub created_at: String,
}

impl Default for Zblob {
    /// The blob of the canonical empty model.
    fn default() -> (r: Zblob)
        ensures
            r.id == 0,
            r.base64_zipped@ == EMPTY_NET@,
            r.ipfs_cid@ == content_id_of(EMPTY_NET.spec_bytes()),
            r.title@ == "default"@,
            r.description@ == ""@,
            r.keywords@ == "new"@,
            r.referrer@ == ""@,
            r.created_at@ == ""@,
    {
        Zblob {
            id: 0,
            ipfs_cid: content_id(EMPTY_NET.as_bytes()),
            base64_zipped: EMPTY_NET.to_owned(),
            title: "default".to_owned(),
            description: "".to_owned(),
            keywords: "new".to_owned(),
            referrer: "".to_owned(),
            created_at: "".to_owned(),
        }
    }
}

impl Zblob {
    /// Wraps an already-packed string (or the canonical empty model when
    /// `None`) in a blob, computing its content-derived identifier.
    pub fn from_string(encoded_zip: Option<&str>) -> (r: Zblob)
        ensures
            r.id == 0,
            r.title@ == "default"@,
            r.description@ == ""@,
            r.referrer@ == ""@,
            r.created_at@ == ""@,
            match encoded_zip {
                Some(s) => {
                    &&& r.base64_zipped@ == s@
                    &&& r.ipfs_cid@ == content_id_of(s.spec_bytes())
                    &&& r.keywords@ == ""@
                },
                None => {
                    &&& r.base64_zipped@ == EMPTY_NET@
                    &&& r.ipfs_cid@ == content_id_of(EMPTY_NET.spec_bytes())
                    &&& r.keywords@ == "new"@
                },
            },
    {
        let mut zblob = Zblob::default();
        if encoded_zip.is_some() {
            let s = encoded_zip.unwrap();
            zblob.base64_zipped = s.to_owned();
            zblob.ipfs_cid = content_id(s.as_bytes());
            zblob.keywords = "".to_owned();
        }
        zblob
    }

    /// Packs a model: its canonical JSON text is stored as `model.json` in a
    /// zip archive, base64-encoded, and wrapped in a blob; unpacking the
    /// blob's content recovers the JSON text.  The JSON text must stay under
    /// the zip format's 4 GiB single-file threshold.
    pub fn from_net(net: &PetriNet) -> (r: Zblob)
        requires
            vstd::utf8::encode_utf8(json_of(net@)).len() <= 0xFFFF_FFFF,
        ensures
            r.base64_zipped@ == b64_encode_of(zip_store_of("model.json"@, json_of(net@))),
            unzip_of(r.base64_zipped@, "model.json"@) == Some(json_of(net@)),
            r.ipfs_cid@ == content_id_of(vstd::utf8::encode_utf8(r.base64_zipped@)),
            r.keywords@ == ""@,
    {
        let net_json = net.to_json();
        proof {
            reveal_strlit("model.json");
            assert(vstd::utf8::is_ascii_chars("model.json"@));
            vstd::utf8::is_ascii_chars_encode_utf8("model.json"@);
            assert("model.json".spec_bytes().len() == 10);
        }
        let data = encode_zip(net_json.as_str(), "model.json");
        Self::from_string(Some(data.as_str()))
    }
}

} // verus!
