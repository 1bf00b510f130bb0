use vasm::compression::{encode_zip, unzip_encoded, unzip_encoded_url};
use vasm::model::{ArcDecl, PetriNet, Place, TransitionDecl};
use vasm::zblob::{Zblob, EMPTY_NET};

const EMPTY_NET_JSON: &str = "{\n  \"modelType\": \"petriNet\",\n  \"version\": \"v0\",\n  \"places\": {\n  },\n  \"transitions\": {\n  },\n  \"arcs\": [\n  ]\n}";

fn inhibit_test_model() -> PetriNet {
    let place = Place {
        name: "place0".to_string(),
        offset: 0,
        initial: Some(1),
        capacity: None,
    };
    let transitions = vec![
        TransitionDecl { name: "txn0".to_string(), role: None },
        TransitionDecl { name: "txn1".to_string(), role: None },
        TransitionDecl { name: "txn2".to_string(), role: None },
        TransitionDecl { name: "txn3".to_string(), role: None },
    ];
    let arcs = vec![
        ArcDecl {
            source: "txn0".to_string(),
            target: "place0".to_string(),
            weight: Some(1),
            consume: None,
            produce: Some(true),
            inhibit: None,
            read: None,
        },
        ArcDecl {
            source: "place0".to_string(),
            target: "txn1".to_string(),
            weight: Some(1),
            consume: Some(true),
            produce: None,
            inhibit: None,
            read: None,
        },
        ArcDecl {
            source: "place0".to_string(),
            target: "txn2".to_string(),
            weight: Some(3),
            consume: None,
            produce: None,
            inhibit: Some(true),
            read: None,
        },
        ArcDecl {
            source: "txn3".to_string(),
            target: "place0".to_string(),
            weight: Some(1),
            consume: None,
            produce: None,
            inhibit: Some(true),
            read: Some(true),
        },
    ];
    PetriNet {
        model_type: "petriNet".to_string(),
        places: vec![place],
        transitions,
        arcs,
    }
}

#[test]
fn test_unzip_base64_encoded() {
    let data = "{\n  \"modelType\": \"petriNet\",\n  \"version\": \"v0\",\n  \"places\": {\n    \"p\": {\"offset\": 0, \"initial\": 1, \"capacity\": null}\n  },\n  \"transitions\": {\n  },\n  \"arcs\": [\n  ]\n}";
    let encoded = encode_zip(data, "dining_philosophers.json");
    let decoded = unzip_encoded(&encoded, "dining_philosophers.json").unwrap();
    assert_eq!(decoded, data);
}

#[test]
fn test_unzip_test_model() {
    let net = inhibit_test_model();
    let zblob = Zblob::from_net(&net);
    let decoded = unzip_encoded_url(
        &format!("https://example.com/p/?z={}", zblob.base64_zipped),
        "model.json",
    )
    .unwrap();

    let parsed: serde_json::Value = serde_json::from_str(&decoded).unwrap();
    assert_eq!(parsed["arcs"].as_array().unwrap().len(), 4);
    assert_eq!(parsed["places"].as_object().unwrap().len(), 1);
    assert_eq!(parsed["transitions"].as_object().unwrap().len(), 4);
}

#[test]
fn test_empty_net_json_text() {
    let net = PetriNet {
        model_type: "petriNet".to_string(),
        places: vec![],
        transitions: vec![],
        arcs: vec![],
    };
    assert_eq!(net.to_json(), EMPTY_NET_JSON);
}

#[test]
fn test_canonical_empty_blob_unpacks() {
    let decoded = unzip_encoded(EMPTY_NET, "model.json").unwrap();
    assert_eq!(decoded, EMPTY_NET_JSON);
}

#[test]
fn test_unzip_rejects_bad_input() {
    // Not base64 at all.
    assert!(unzip_encoded("!!!", "model.json").is_none());
    // Valid base64, but not a zip archive.
    assert!(unzip_encoded("AAAA", "model.json").is_none());
    // Wrong file name inside a valid archive.
    assert!(unzip_encoded(EMPTY_NET, "other.json").is_none());
    // URL whose query has no z= parameter.
    assert!(unzip_encoded_url("https://example.com/p/?a=1&b=2", "model.json").is_none());
}

#[test]
fn test_zblob_default() {
    let z = Zblob::default();
    assert_eq!(z.id, 0);
    assert_eq!(z.base64_zipped, EMPTY_NET);
    assert_eq!(z.title, "default");
    assert_eq!(z.keywords, "new");
    assert!(!z.ipfs_cid.is_empty());
}

#[test]
fn test_zblob_from_string() {
    let z = Zblob::from_string(Some("abc"));
    assert_eq!(z.base64_zipped, "abc");
    assert_eq!(z.keywords, "");
    // The identifier is content-derived: stable for equal content,
    // different for different content.
    let z2 = Zblob::from_string(Some("abc"));
    assert_eq!(z.ipfs_cid, z2.ipfs_cid);
    let z3 = Zblob::from_string(Some("abd"));
    assert_ne!(z.ipfs_cid, z3.ipfs_cid);
    assert_ne!(z.ipfs_cid, "abc");
    // The default path keeps the canonical empty content.
    let zd = Zblob::from_string(None);
    assert_eq!(zd.base64_zipped, EMPTY_NET);
    assert_eq!(zd.keywords, "new");
}

#[test]
fn test_zblob_from_net_round_trip() {
    let net = inhibit_test_model();
    let z = Zblob::from_net(&net);
    let decoded = unzip_encoded(&z.base64_zipped, "model.json").unwrap();
    assert_eq!(decoded, net.to_json());
    assert_eq!(z.keywords, "");
    assert!(!z.ipfs_cid.is_empty());
}

#[test]
fn test_to_json_renders_fields() {
    let net = inhibit_test_model();
    let json = net.to_json();
    assert!(json.contains("\"place0\": {\"offset\": 0, \"initial\": 1, \"capacity\": null}"));
    assert!(json.contains("\"txn0\": {\"role\": null}"));
    assert!(json.contains(
        "{\"source\": \"place0\", \"target\": \"txn2\", \"weight\": 3, \"consume\": null, \"produce\": null, \"inhibit\": true, \"read\": null}"
    ));
}

#[test]
fn test_to_json_escapes_names() {
    let net = PetriNet {
        model_type: "petriNet".to_string(),
        places: vec![Place {
            name: "pl\"ace\\0".to_string(),
            offset: 0,
            initial: Some(1),
            capacity: None,
        }],
        transitions: vec![],
        arcs: vec![],
    };
    let json = net.to_json();
    assert!(json.contains("\"pl\\\"ace\\\\0\""));
    let parsed: serde_json::Value = serde_json::from_str(&json).unwrap();
    assert!(parsed["places"].as_object().unwrap().contains_key("pl\"ace\\0"));
}

#[test]
fn test_unzip_reads_deflate_archives() {
    let data = "deflate me, deflate me, deflate me, deflate me, deflate me";
    let writer = std::io::Cursor::new(vec![]);
    let mut zip = zip::ZipWriter::new(writer);
    let options = zip::write::FileOptions::default()
        .compression_method(zip::CompressionMethod::Deflated);
    zip.start_file("model.json", options).unwrap();
    std::io::Write::write_all(&mut zip, data.as_bytes()).unwrap();
    let writer = zip.finish().unwrap();
    let encoded =
        base64::Engine::encode(&base64::engine::general_purpose::STANDARD, writer.into_inner());

    let decoded = unzip_encoded(&encoded, "model.json").unwrap();
    assert_eq!(decoded, data);
}
