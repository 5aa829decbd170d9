use garage::api_server::{assemble_blocks, chunk_body, delete_marker_object, plan_put, read_plan,
    route_request, ApiRequest, BodyChunker, PutPlan, ReadPlan};
use garage::model::object::{Object, ObjectVersionState};

const BLOCK_SIZE: usize = 256;
const INLINE_THRESHOLD: usize = 64;

fn sample_body(len: usize) -> Vec<u8> {
    // arbitrary but reproducible content
    (0..len).map(|i| ((i * 31 + 7) % 256) as u8).collect()
}

#[test]
fn single_node_put_get_small_object() {
    let body = b"hello";
    let plan = plan_put("b", "k/a", "text/plain", body, BLOCK_SIZE, INLINE_THRESHOLD, 42, 1000)
        .expect("put of a small body must succeed");
    let object = match plan {
        PutPlan::Inline { object } => object,
        PutPlan::Blocks { .. } => panic!("five bytes must be stored inline"),
    };
    assert_eq!(object.bucket, "b");
    assert_eq!(object.key, "k/a");
    assert_eq!(object.versions.len(), 1);
    assert_eq!(object.versions[0].size, 5);
    match read_plan(&object) {
        ReadPlan::Inline { mime_type, bytes } => {
            assert_eq!(mime_type, "text/plain");
            assert_eq!(bytes, body.to_vec());
        }
        _ => panic!("GET must serve the inline body"),
    }
}

#[test]
fn chunked_upload_has_aligned_blocks_and_round_trips() {
    let body = sample_body(3 * BLOCK_SIZE + 1);
    let plan = plan_put("b", "k/big", "blob", &body, BLOCK_SIZE, INLINE_THRESHOLD, 43, 2000)
        .expect("put of a large body must succeed");
    let (object, version, blocks) = match plan {
        PutPlan::Blocks { object, version, blocks } => (object, version, blocks),
        PutPlan::Inline { .. } => panic!("a large body must be cut into blocks"),
    };
    assert_eq!(version.uuid, 43);
    assert_eq!(version.blocks.len(), 4);
    for (i, vb) in version.blocks.iter().enumerate() {
        assert_eq!(vb.offset, (i * BLOCK_SIZE) as u64);
    }
    for w in version.blocks.windows(2) {
        assert!(w[0].offset < w[1].offset);
    }
    assert_eq!(blocks.len(), 4);
    assert_eq!(blocks[3].1.len(), 1);
    let datas: Vec<Vec<u8>> = blocks.iter().map(|(_, d)| d.clone()).collect();
    let rebuilt = assemble_blocks(&datas);
    assert_eq!(rebuilt, body);
    assert_eq!(object.versions[0].size as usize, body.len());
}

#[test]
fn empty_body_is_rejected() {
    let r = plan_put("b", "k", "blob", b"", BLOCK_SIZE, INLINE_THRESHOLD, 1, 1);
    assert!(r.is_err());
}

#[test]
fn chunker_concatenation_is_identity() {
    for len in [1usize, BLOCK_SIZE - 1, BLOCK_SIZE, BLOCK_SIZE + 1, 5 * BLOCK_SIZE] {
        let body = sample_body(len);
        let chunks = chunk_body(&body, BLOCK_SIZE);
        let rebuilt = assemble_blocks(&chunks);
        assert_eq!(rebuilt, body);
        for c in chunks.iter().take(chunks.len().saturating_sub(1)) {
            assert_eq!(c.len(), BLOCK_SIZE);
        }
    }
    assert!(chunk_body(b"", BLOCK_SIZE).is_empty());
}

#[test]
fn delete_marker_hides_the_key() {
    let plan = plan_put("b", "k", "text/plain", b"hello", BLOCK_SIZE, INLINE_THRESHOLD, 1, 1000)
        .expect("put must succeed");
    let object = match plan {
        PutPlan::Inline { object } => object,
        _ => panic!("small body is inline"),
    };
    // a later DELETE writes a delete marker; after the CRDT merge the key
    // reads as absent
    let marker = delete_marker_object("b", "k", 2, 2000);
    assert_eq!(marker.versions.len(), 1);
    assert_eq!(marker.versions[0].state, ObjectVersionState::Complete);
    let merged: Object = object.merged(&marker);
    assert_eq!(merged.versions.len(), 2);
    match read_plan(&merged) {
        ReadPlan::NotFound => {}
        _ => panic!("the newer delete marker must win"),
    }
}

#[test]
fn streamed_chunking_matches_whole_body_chunking() {
    let body = sample_body(2 * BLOCK_SIZE + 100);
    let mut chunker = BodyChunker::new(BLOCK_SIZE);
    let mut streamed: Vec<Vec<u8>> = Vec::new();
    for piece in body.chunks(777) {
        chunker.feed(piece);
        // drain full blocks as they become available, as a reader would
        while chunker.buffered_len() >= BLOCK_SIZE {
            streamed.push(chunker.next_block().expect("a full block is buffered"));
        }
    }
    chunker.finish();
    while let Some(b) = chunker.next_block() {
        streamed.push(b);
    }
    assert_eq!(streamed, chunk_body(&body, BLOCK_SIZE));
}

#[test]
fn requests_route_by_method_and_host() {
    match route_request("PUT", Some("MyBucket"), "/k/a", None).unwrap() {
        ApiRequest::Put { bucket, key, mime_type } => {
            assert_eq!(bucket, "mybucket");
            assert_eq!(key, "/k/a");
            assert_eq!(mime_type, "blob");
        }
        _ => panic!("PUT must route to a put"),
    }
    match route_request("GET", Some("b"), "/k", Some("text/plain")).unwrap() {
        ApiRequest::Get { bucket, key } => {
            assert_eq!(bucket, "b");
            assert_eq!(key, "/k");
        }
        _ => panic!("GET must route to a get"),
    }
    assert!(matches!(
        route_request("DELETE", Some("b"), "/k", None).unwrap(),
        ApiRequest::Delete { .. }
    ));
    assert!(route_request("POST", Some("b"), "/k", None).is_err());
    assert!(route_request("GET", None, "/k", None).is_err());
}
