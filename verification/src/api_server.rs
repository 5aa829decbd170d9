//! The storage core of the S3-facing object operations.
//!
//! The HTTP layer reads bodies and sends responses; everything it decides is
//! here: how a body is cut into blocks, what rows a PUT writes, what a
//! DELETE writes, and which version and payload a GET serves.

use vstd::prelude::*;

use vstd::string::StringExecFns;

use crate::digest::sha256_of;
use crate::model::object::{
    Object, ObjectVersion, ObjectVersionData, ObjectVersionDataV, ObjectVersionState, ObjectV,
    ObjectVersionV, VersionUuid,
};
use crate::model::version::{Version, VersionBlock};
use crate::util::error::Error;

verus! {

/// The concatenation of a list of byte strings, in order.
pub open spec fn concat_bytes(bs: Seq<Seq<u8>>) -> Seq<u8>
    decreases bs.len(),
{
    if bs.len() == 0 {
        Seq::empty()
    } else {
        concat_bytes(bs.drop_last()) + bs.last()
    }
}

/// Every proper prefix of the block list is a whole number of blocks long.
pub open spec fn blocks_aligned(bs: Seq<Seq<u8>>, block_size: int) -> bool {
    forall|i: int|
        0 <= i < bs.len() ==> #[trigger] concat_bytes(bs.take(i)).len() == i * block_size
}

/// Cut a body into blocks: all of `block_size` bytes, except a shorter last
/// one; their concatenation is the body.
pub fn chunk_body(body: &[u8], block_size: usize) -> (r: Vec<Vec<u8>>)
    requires
        block_size >= 1,
    ensures
        concat_bytes(r@.map_values(|b: Vec<u8>| b@)) == body@,
        forall|i: int| 0 <= i < r@.len() ==> 1 <= (#[trigger] r@[i])@.len() <= block_size,
        forall|i: int| 0 <= i < r@.len() - 1 ==> (#[trigger] r@[i])@.len() == block_size,
        r@.len() == 0 <==> body@.len() == 0,
        blocks_aligned(r@.map_values(|b: Vec<u8>| b@), block_size as int),
{
    let n = body.len();
    let mut r: Vec<Vec<u8>> = Vec::new();
    let mut pos: usize = 0;
    while pos < n
        invariant
            block_size >= 1,
            n == body@.len(),
            pos <= n,
            concat_bytes(r@.map_values(|b: Vec<u8>| b@)) == body@.take(pos as int),
            pos == r@.len() * block_size || (pos == n && r@.len() >= 1),
            forall|i: int| 0 <= i < r@.len() ==> 1 <= (#[trigger] r@[i])@.len() <= block_size,
            forall|i: int| 0 <= i < r@.len() - 1 ==> (#[trigger] r@[i])@.len() == block_size,
            pos == n && r@.len() >= 1 ==> r@[r@.len() - 1]@.len() == (pos - (r@.len() - 1)
                * block_size),
            blocks_aligned(r@.map_values(|b: Vec<u8>| b@), block_size as int),
            concat_bytes(r@.map_values(|b: Vec<u8>| b@)).len() == pos,
        decreases n - pos,
    {
        proof {
            assert(pos == r@.len() * block_size);
        }
        let take_len: usize = if n - pos < block_size {
            n - pos
        } else {
            block_size
        };
        let mut block: Vec<u8> = Vec::new();
        let mut k: usize = 0;
        while k < take_len
            invariant
                k <= take_len,
                pos + take_len <= n,
                n == body@.len(),
                block@ =~= body@.subrange(pos as int, pos + k as int),
            decreases take_len - k,
        {
            block.push(body[pos + k]);
            proof {
                assert(block@ =~= body@.subrange(pos as int, pos + (k + 1) as int));
            }
            k = k + 1;
        }
        let ghost oldr = r@.map_values(|b: Vec<u8>| b@);
        r.push(block);
        pos = pos + take_len;
        proof {
            let newr = r@.map_values(|b: Vec<u8>| b@);
            assert(newr =~= oldr.push(body@.subrange(pos - take_len, pos as int)));
            assert(newr.drop_last() =~= oldr);
            assert(concat_bytes(newr) =~= body@.take(pos as int));
            assert((oldr.len() + 1) * block_size == oldr.len() * block_size + block_size) by (nonlinear_arith);
            assert forall|i: int|
                0 <= i < newr.len() implies #[trigger] concat_bytes(newr.take(i)).len() == i
                * block_size by {
                if i < oldr.len() {
                    assert(newr.take(i) =~= oldr.take(i));
                } else {
                    assert(newr.take(i) =~= oldr);
                }
            }
            assert(blocks_aligned(newr, block_size as int));
            if oldr.len() >= 1 {
                // the loop ran again, so every earlier block is full,
                // including the one that was last before this push
                assert(concat_bytes(oldr).len() == oldr.len() * block_size);
                assert(oldr.take(oldr.len() - 1) =~= oldr.drop_last());
                assert(concat_bytes(oldr.take(oldr.len() - 1)).len() == (oldr.len() - 1)
                    * block_size);
                assert(oldr.last().len() == oldr.len() * block_size - (oldr.len() - 1)
                    * block_size);
                assert(oldr.len() * block_size - (oldr.len() - 1) * block_size
                    == block_size) by (nonlinear_arith);
            }
            assert forall|i: int| 0 <= i < newr.len() - 1 implies (#[trigger] r@[i])@.len()
                == block_size by {
                assert(r@[i]@ == newr[i]);
                if i == oldr.len() - 1 {
                    assert(newr[i] == oldr.last());
                } else {
                    assert(newr[i] == oldr[i]);
                }
            }
        }
    }
    proof {
        assert(body@.take(n as int) =~= body@);
        if r@.len() == 0 {
            assert(concat_bytes(r@.map_values(|b: Vec<u8>| b@)).len() == 0);
        }
    }
    r
}

/// Reassemble a body from its blocks, in order.
pub fn assemble_blocks(blocks: &Vec<Vec<u8>>) -> (r: Vec<u8>)
    ensures
        r@ == concat_bytes(blocks@.map_values(|b: Vec<u8>| b@)),
{
    let mut r: Vec<u8> = Vec::new();
    let mut i: usize = 0;
    while i < blocks.len()
        invariant
            i <= blocks@.len(),
            r@ == concat_bytes(blocks@.map_values(|b: Vec<u8>| b@).take(i as int)),
        decreases blocks@.len() - i,
    {
        let b = vstd::std_specs::vec::vec_index(blocks, i);
        let mut k: usize = 0;
        while k < b.len()
            invariant
                k <= b@.len(),
                r@ =~= concat_bytes(blocks@.map_values(|x: Vec<u8>| x@).take(i as int)) + b@.take(
                    k as int,
                ),
                i < blocks@.len(),
                b@ == blocks@.map_values(|x: Vec<u8>| x@)[i as int],
            decreases b@.len() - k,
        {
            r.push(b[k]);
            proof {
                assert(r@ =~= concat_bytes(blocks@.map_values(|x: Vec<u8>| x@).take(i as int))
                    + b@.take(k + 1 as int));
            }
            k = k + 1;
        }
        proof {
            let views = blocks@.map_values(|x: Vec<u8>| x@);
            assert(b@.take(b@.len() as int) =~= b@);
            assert(views.take(i + 1 as int).drop_last() =~= views.take(i as int));
            assert(views.take(i + 1 as int).last() == views[i as int]);
            assert(r@ =~= concat_bytes(views.take(i + 1 as int)));
        }
        i = i + 1;
    }
    proof {
        let views = blocks@.map_values(|x: Vec<u8>| x@);
        assert(views.take(views.len() as int) =~= views);
    }
    r
}

/// One object operation, as routed from an HTTP request.
pub enum ApiRequest {
    /// Serve the object's body.
    Get {
        /// The bucket, from the lowercased Host header.
        bucket: String,
        /// The key, from the request path.
        key: String,
    },
    /// Store a new version of the object.
    Put {
        /// The bucket, from the lowercased Host header.
        bucket: String,
        /// The key, from the request path.
        key: String,
        /// The Content-Type to store, or its default.
        mime_type: String,
    },
    /// Write a delete marker for the object.
    Delete {
        /// The bucket, from the lowercased Host header.
        bucket: String,
        /// The key, from the request path.
        key: String,
    },
}

/// Route an HTTP request to an object operation: the Host header names the
/// bucket, the path names the key, and only GET, PUT and DELETE exist.
pub fn route_request(
    method: &str,
    host: Option<&str>,
    path: &str,
    content_type: Option<&str>,
) -> (r: Result<ApiRequest, Error>)
    ensures
        match r {
            Result::Ok(req) => host is Some && match req {
                ApiRequest::Get { bucket, key } => method@ == "GET"@ && bucket@
                    == crate::util::text::ascii_lower(host->Some_0@) && key@ == path@,
                ApiRequest::Put { bucket, key, mime_type } => {
                    &&& method@ == "PUT"@
                    &&& bucket@ == crate::util::text::ascii_lower(host->Some_0@)
                    &&& key@ == path@
                    &&& mime_type@ == (match content_type {
                        Option::Some(ct) => ct@,
                        Option::None => "blob"@,
                    })
                },
                ApiRequest::Delete { bucket, key } => method@ == "DELETE"@ && bucket@
                    == crate::util::text::ascii_lower(host->Some_0@) && key@ == path@,
            },
            Result::Err(e) => e is BadRequest && (host is None || (method@ != "GET"@ && method@
                != "PUT"@ && method@ != "DELETE"@)),
        },
{
    let h = match host {
        Option::Some(h) => h,
        Option::None => {
            return Result::Err(Error::BadRequest(String::from_str("Host header missing")));
        },
    };
    let bucket = crate::util::text::ascii_lowercase(h);
    let key = path.to_owned();
    if crate::util::text::str_eq(method, "GET") {
        Result::Ok(ApiRequest::Get { bucket, key })
    } else if crate::util::text::str_eq(method, "PUT") {
        let mime_type = match content_type {
            Option::Some(ct) => ct.to_owned(),
            Option::None => String::from_str("blob"),
        };
        Result::Ok(ApiRequest::Put { bucket, key, mime_type })
    } else if crate::util::text::str_eq(method, "DELETE") {
        Result::Ok(ApiRequest::Delete { bucket, key })
    } else {
        Result::Err(Error::BadRequest(String::from_str("Invalid method")))
    }
}

/// Cuts a streamed body into blocks as it arrives.
///
/// The reader feeds bytes in as they come and marks the end of the body;
/// whenever a full block's worth is buffered — or the body has ended — the
/// next block can be taken. The blocks taken, in order, concatenate to
/// exactly what was fed.
pub struct BodyChunker {
    /// Bytes received and not yet emitted.
    buf: Vec<u8>,
    /// Set once the whole body has been fed.
    read_all: bool,
    /// The size of every emitted block but the last.
    block_size: usize,
}

impl BodyChunker {
    /// Bytes received and not yet emitted.
    pub closed spec fn buffered(&self) -> Seq<u8> {
        self.buf@
    }

    /// Whether the whole body has been fed.
    pub closed spec fn done(&self) -> bool {
        self.read_all
    }

    /// The block size it was created with.
    pub closed spec fn size(&self) -> int {
        self.block_size as int
    }

    /// A chunker for blocks of `block_size` bytes.
    pub fn new(block_size: usize) -> (r: BodyChunker)
        requires
            block_size >= 1,
        ensures
            r.buffered() == Seq::<u8>::empty(),
            !r.done(),
            r.size() == block_size,
    {
        BodyChunker { buf: Vec::new(), read_all: false, block_size }
    }

    /// Feed the next piece of the body.
    pub fn feed(&mut self, bytes: &[u8])
        requires
            !old(self).done(),
        ensures
            final (self).buffered() == old(self).buffered() + bytes@,
            !final (self).done(),
            final (self).size() == old(self).size(),
    {
        let mut i: usize = 0;
        let n = bytes.len();
        while i < n
            invariant
                i <= n,
                n == bytes@.len(),
                self.buf@ =~= old(self).buf@ + bytes@.take(i as int),
                self.read_all == old(self).read_all,
                self.block_size == old(self).block_size,
            decreases n - i,
        {
            self.buf.push(bytes[i]);
            proof {
                assert(self.buf@ =~= old(self).buf@ + bytes@.take(i + 1 as int));
            }
            i = i + 1;
        }
        proof {
            assert(bytes@.take(n as int) =~= bytes@);
        }
    }

    /// How many bytes wait in the buffer.
    pub fn buffered_len(&self) -> (r: usize)
        ensures
            r == self.buffered().len(),
    {
        self.buf.len()
    }

    /// Mark the end of the body.
    pub fn finish(&mut self)
        ensures
            final (self).buffered() == old(self).buffered(),
            final (self).done(),
            final (self).size() == old(self).size(),
    {
        self.read_all = true;
    }

    /// Take the next block: a full one while enough is buffered, the short
    /// remainder once the body has ended, nothing when it ended empty.
    pub fn next_block(&mut self) -> (r: Option<Vec<u8>>)
        requires
            old(self).done() || old(self).buffered().len() >= old(self).size(),
            old(self).size() >= 1,
        ensures
            final (self).done() == old(self).done(),
            final (self).size() == old(self).size(),
            match r {
                Option::None => old(self).buffered().len() == 0 && final (self).buffered()
                    == old(self).buffered(),
                Option::Some(b) => {
                    let take = if old(self).buffered().len() >= old(self).size() {
                        old(self).size()
                    } else {
                        old(self).buffered().len() as int
                    };
                    &&& old(self).buffered().len() > 0
                    &&& b@ == old(self).buffered().take(take)
                    &&& final (self).buffered() == old(self).buffered().skip(take)
                },
            },
    {
        if self.buf.len() == 0 {
            return Option::None;
        }
        let take = if self.buf.len() >= self.block_size {
            self.block_size
        } else {
            self.buf.len()
        };
        let mut block: Vec<u8> = Vec::new();
        let mut i: usize = 0;
        while i < take
            invariant
                i <= take,
                take <= self.buf@.len(),
                block@ =~= self.buf@.take(take as int).take(i as int),
                self.buf@ == old(self).buf@,
            decreases take - i,
        {
            block.push(self.buf[i]);
            proof {
                assert(block@ =~= self.buf@.take(take as int).take(i + 1 as int));
            }
            i = i + 1;
        }
        let mut rest: Vec<u8> = Vec::new();
        let mut k: usize = take;
        while k < self.buf.len()
            invariant
                take <= k <= self.buf@.len(),
                rest@ =~= self.buf@.subrange(take as int, k as int),
                self.buf@ == old(self).buf@,
            decreases self.buf@.len() - k,
        {
            rest.push(self.buf[k]);
            proof {
                assert(rest@ =~= self.buf@.subrange(take as int, k + 1 as int));
            }
            k = k + 1;
        }
        proof {
            assert(block@ =~= old(self).buf@.take(take as int));
            assert(rest@ =~= old(self).buf@.skip(take as int));
        }
        self.buf = rest;
        Option::Some(block)
    }
}

/// Everything a PUT must write.
pub enum PutPlan {
    /// A small body: one metadata row carries the bytes inline.
    Inline {
        /// The object row to insert.
        object: Object,
    },
    /// A large body: the object row points at the first block; the version
    /// row lists every block; the blocks themselves are stored by hash.
    Blocks {
        /// The object row to insert.
        object: Object,
        /// The version row listing the blocks.
        version: Version,
        /// The blocks to store, each with its content hash, in offset order.
        blocks: Vec<(crate::data::Hash, Vec<u8>)>,
    },
}

/// Decide everything a PUT of `body` writes.
///
/// An empty body is rejected. A body shorter than `inline_threshold` is
/// stored inline in the object row; anything else is cut into blocks of
/// `block_size` bytes whose hashes the version row records at strictly
/// increasing offsets `0, B, 2B, ...`.
pub fn plan_put(
    bucket: &str,
    key: &str,
    mime_type: &str,
    body: &[u8],
    block_size: usize,
    inline_threshold: usize,
    version_uuid: VersionUuid,
    timestamp: u64,
) -> (r: Result<PutPlan, Error>)
    requires
        1 <= block_size,
        inline_threshold <= block_size,
        body@.len() <= u64::MAX,
    ensures
        match r {
            Result::Err(e) => body@.len() == 0 && e is BadRequest,
            Result::Ok(plan) => body@.len() > 0 && match plan {
                PutPlan::Inline { object } => {
                    &&& body@.len() < inline_threshold
                    &&& object@.bucket == bucket@
                    &&& object@.key == key@
                    &&& object@.versions =~= seq![
                        ObjectVersionV {
                            uuid: version_uuid,
                            timestamp: timestamp,
                            mime_type: mime_type@,
                            size: body@.len() as u64,
                            state: ObjectVersionState::Complete,
                            data: ObjectVersionDataV::Inline(body@),
                        },
                    ]
                },
                PutPlan::Blocks { object, version, blocks } => {
                    &&& body@.len() >= inline_threshold
                    &&& concat_bytes(blocks@.map_values(|p: (crate::data::Hash, Vec<u8>)| p.1@))
                        == body@
                    &&& blocks@.len() >= 1
                    &&& forall|i: int|
                        0 <= i < blocks@.len() ==> (#[trigger] blocks@[i]).0@ == sha256_of(
                            blocks@[i].1@,
                        )
                    &&& forall|i: int|
                        0 <= i < blocks@.len() ==> 1 <= (#[trigger] blocks@[i]).1@.len()
                            <= block_size
                    &&& forall|i: int|
                        0 <= i < blocks@.len() - 1 ==> (#[trigger] blocks@[i]).1@.len()
                            == block_size
                    &&& version@.uuid == version_uuid
                    &&& version@.deleted == false
                    &&& version@.bucket == bucket@
                    &&& version@.key == key@
                    &&& version@.blocks.len() == blocks@.len()
                    &&& forall|i: int|
                        0 <= i < blocks@.len() ==> (#[trigger] version@.blocks[i]).offset == i
                            * block_size && version@.blocks[i].hash == blocks@[i].0@
                    &&& version@.wf()
                    &&& object@.bucket == bucket@
                    &&& object@.key == key@
                    &&& object@.versions =~= seq![
                        ObjectVersionV {
                            uuid: version_uuid,
                            timestamp: timestamp,
                            mime_type: mime_type@,
                            size: body@.len() as u64,
                            state: ObjectVersionState::Complete,
                            data: ObjectVersionDataV::FirstBlock(sha256_of(blocks@[0].1@)),
                        },
                    ]
                },
            },
        },
{
    if body.len() == 0 {
        return Result::Err(Error::BadRequest(String::from_str("Empty body")));
    }
    if body.len() < inline_threshold {
        let mut bytes: Vec<u8> = Vec::new();
        let mut i: usize = 0;
        while i < body.len()
            invariant
                i <= body@.len(),
                bytes@ =~= body@.take(i as int),
            decreases body@.len() - i,
        {
            bytes.push(body[i]);
            proof {
                assert(bytes@ =~= body@.take(i + 1 as int));
            }
            i = i + 1;
        }
        proof {
            assert(body@.take(body@.len() as int) =~= body@);
        }
        let object = Object {
            bucket: bucket.to_owned(),
            key: key.to_owned(),
            versions: vec![
                ObjectVersion {
                    uuid: version_uuid,
                    timestamp,
                    mime_type: mime_type.to_owned(),
                    size: body.len() as u64,
                    state: ObjectVersionState::Complete,
                    data: ObjectVersionData::Inline(bytes),
                },
            ],
        };
        proof {
            assert(object@.versions =~= seq![
                ObjectVersionV {
                    uuid: version_uuid,
                    timestamp: timestamp,
                    mime_type: mime_type@,
                    size: body@.len() as u64,
                    state: ObjectVersionState::Complete,
                    data: ObjectVersionDataV::Inline(body@),
                },
            ]);
        }
        return Result::Ok(PutPlan::Inline { object });
    }
    let chunks = chunk_body(body, block_size);
    let ghost chunk_views = chunks@.map_values(|b: Vec<u8>| b@);
    let mut blocks: Vec<(crate::data::Hash, Vec<u8>)> = Vec::new();
    let mut version_blocks: Vec<VersionBlock> = Vec::new();
    let mut i: usize = 0;
    let mut offset: u64 = 0;
    proof {
        assert(concat_bytes(chunk_views).len() == body@.len());
    }
    while i < chunks.len()
        invariant
            1 <= block_size,
            chunk_views == chunks@.map_values(|b: Vec<u8>| b@),
            chunk_views.len() == chunks@.len(),
            i <= chunks@.len(),
            body@.len() <= u64::MAX,
            concat_bytes(chunk_views) == body@,
            forall|k: int| 0 <= k < chunks@.len() ==> 1 <= (#[trigger] chunk_views[k]).len(),
            blocks_aligned(chunk_views, block_size as int),
            blocks@.len() == i,
            version_blocks@.len() == i,
            offset == i * block_size || (i == chunks@.len() && offset == body@.len()),
            offset <= body@.len(),
            forall|k: int|
                0 <= k < i ==> (#[trigger] blocks@[k]).1@ == chunk_views[k] && blocks@[k].0@
                    == sha256_of(chunk_views[k]),
            forall|k: int|
                0 <= k < i ==> (#[trigger] version_blocks@[k])@.offset == k * block_size
                    && version_blocks@[k]@.hash == sha256_of(chunk_views[k]),
        decreases chunks@.len() - i,
    {
        let chunk = vstd::std_specs::vec::vec_index(&chunks, i);
        proof {
            assert(chunk@ == chunk_views[i as int]);
            // the body bytes up to this chunk are exactly the previous
            // chunks, so the running offset is in range
            assert(concat_bytes(chunk_views.take(i as int)).len() == i * block_size);
            assert(concat_bytes(chunk_views.take(i + 1 as int)).len() <= concat_bytes(
                chunk_views,
            ).len()) by {
                lemma_concat_prefix_le(chunk_views, i + 1 as int);
            }
            assert(chunk_views.take(i + 1 as int).drop_last() =~= chunk_views.take(i as int));
            assert(chunk_views.take(i + 1 as int).last() == chunk_views[i as int]);
            assert(offset == i * block_size);
            assert(offset + chunk_views[i as int].len() <= body@.len());
        }
        let h = crate::data::hash(chunk.as_slice());
        let mut copy: Vec<u8> = Vec::new();
        let mut k: usize = 0;
        while k < chunk.len()
            invariant
                k <= chunk@.len(),
                copy@ =~= chunk@.take(k as int),
            decreases chunk@.len() - k,
        {
            copy.push(chunk[k]);
            proof {
                assert(copy@ =~= chunk@.take(k + 1 as int));
            }
            k = k + 1;
        }
        proof {
            assert(chunk@.take(chunk@.len() as int) =~= chunk@);
        }
        version_blocks.push(VersionBlock { offset, hash: h.duplicate() });
        blocks.push((h, copy));
        let step = chunk.len();
        offset = offset + step as u64;
        proof {
            assert((i + 1) * block_size == i * block_size + block_size) by (nonlinear_arith);
            if i + 1 < chunks@.len() {
                assert(chunk_views[i as int].len() == block_size);
            } else {
                assert(offset == concat_bytes(chunk_views.take(i + 1 as int)).len());
                assert(chunk_views.take(i + 1 as int) =~= chunk_views);
            }
        }
        i = i + 1;
    }
    proof {
        assert(chunk_views.take(chunks@.len() as int) =~= chunk_views);
        assert(blocks@.map_values(|p: (crate::data::Hash, Vec<u8>)| p.1@) =~~= chunk_views);
    }
    let first_hash = vstd::std_specs::vec::vec_index(&blocks, 0).0.duplicate();
    let object = Object {
        bucket: bucket.to_owned(),
        key: key.to_owned(),
        versions: vec![
            ObjectVersion {
                uuid: version_uuid,
                timestamp,
                mime_type: mime_type.to_owned(),
                size: body.len() as u64,
                state: ObjectVersionState::Complete,
                data: ObjectVersionData::FirstBlock(first_hash),
            },
        ],
    };
    let version = Version {
        uuid: version_uuid,
        deleted: false,
        blocks: version_blocks,
        bucket: bucket.to_owned(),
        key: key.to_owned(),
    };
    proof {
        assert(object@.versions =~= seq![
            ObjectVersionV {
                uuid: version_uuid,
                timestamp: timestamp,
                mime_type: mime_type@,
                size: body@.len() as u64,
                state: ObjectVersionState::Complete,
                data: ObjectVersionDataV::FirstBlock(sha256_of(blocks@[0].1@)),
            },
        ]);
        assert forall|a: int, b: int|
            0 <= a < b < version@.blocks.len() implies version@.blocks[a].offset
            < version@.blocks[b].offset by {
            assert(version@.blocks[a].offset == a * block_size);
            assert(version@.blocks[b].offset == b * block_size);
            assert(a * block_size < b * block_size) by (nonlinear_arith)
                requires
                    0 <= a < b,
                    block_size >= 1,
            ;
        }
    }
    Result::Ok(PutPlan::Blocks { object, version, blocks })
}

proof fn lemma_concat_prefix_le(bs: Seq<Seq<u8>>, i: int)
    requires
        0 <= i <= bs.len(),
    ensures
        concat_bytes(bs.take(i)).len() <= concat_bytes(bs).len(),
    decreases bs.len() - i,
{
    if i < bs.len() {
        lemma_concat_prefix_le(bs, i + 1);
        assert(bs.take(i + 1).drop_last() =~= bs.take(i));
    } else {
        assert(bs.take(i) =~= bs);
    }
}

/// The object row a DELETE writes: a new version holding a delete marker.
pub fn delete_marker_object(bucket: &str, key: &str, version_uuid: VersionUuid, timestamp: u64) -> (r:
    Object)
    ensures
        r@.bucket == bucket@,
        r@.key == key@,
        r@.versions =~= seq![
            ObjectVersionV {
                uuid: version_uuid,
                timestamp: timestamp,
                mime_type: "application/x-delete-marker"@,
                size: 0,
                state: ObjectVersionState::Complete,
                data: ObjectVersionDataV::DeleteMarker,
            },
        ],
        r@.wf(),
{
    let r = Object {
        bucket: bucket.to_owned(),
        key: key.to_owned(),
        versions: vec![
            ObjectVersion {
                uuid: version_uuid,
                timestamp,
                mime_type: "application/x-delete-marker".to_owned(),
                size: 0,
                state: ObjectVersionState::Complete,
                data: ObjectVersionData::DeleteMarker,
            },
        ],
    };
    proof {
        assert(r@.versions =~= seq![
            ObjectVersionV {
                uuid: version_uuid,
                timestamp: timestamp,
                mime_type: "application/x-delete-marker"@,
                size: 0,
                state: ObjectVersionState::Complete,
                data: ObjectVersionDataV::DeleteMarker,
            },
        ]);
    }
    r
}

/// True when `a` supersedes `b`: created later, ties broken by uuid.
pub open spec fn newer_version(a: ObjectVersionV, b: ObjectVersionV) -> bool {
    a.timestamp > b.timestamp || (a.timestamp == b.timestamp && a.uuid >= b.uuid)
}

/// What a GET serves.
pub enum ReadPlan {
    /// No visible content under the key.
    NotFound,
    /// The body is stored inline: serve it directly.
    Inline {
        /// The Content-Type to answer with.
        mime_type: String,
        /// The body.
        bytes: Vec<u8>,
    },
    /// The body is stored as blocks: fetch them, starting at the first.
    FirstBlock {
        /// The Content-Type to answer with.
        mime_type: String,
        /// The version whose block list to follow.
        version_uuid: VersionUuid,
        /// The hash of the first block.
        first_block: crate::data::Hash,
    },
}

/// Decide what a GET serves: the newest complete version, or nothing when
/// there is none or it is a delete marker.
pub fn read_plan(object: &Object) -> (r: ReadPlan)
    ensures
        (forall|i: int|
            0 <= i < object@.versions.len() ==> (#[trigger] object@.versions[i]).state
                != ObjectVersionState::Complete) ==> r is NotFound,
        (exists|i: int|
            0 <= i < object@.versions.len() && (#[trigger] object@.versions[i]).state
                == ObjectVersionState::Complete) ==> exists|i: int|
            {
                &&& 0 <= i < object@.versions.len()
                &&& (#[trigger] object@.versions[i]).state == ObjectVersionState::Complete
                &&& forall|j: int|
                    0 <= j < object@.versions.len() && (#[trigger] object@.versions[j]).state
                        == ObjectVersionState::Complete ==> newer_version(
                        object@.versions[i],
                        object@.versions[j],
                    )
                &&& match object@.versions[i].data {
                    ObjectVersionDataV::DeleteMarker => r is NotFound,
                    ObjectVersionDataV::Inline(b) => match r {
                        ReadPlan::Inline { mime_type, bytes } => mime_type@
                            == object@.versions[i].mime_type && bytes@ == b,
                        _ => false,
                    },
                    ObjectVersionDataV::FirstBlock(h) => match r {
                        ReadPlan::FirstBlock { mime_type, version_uuid, first_block } => mime_type@
                            == object@.versions[i].mime_type && version_uuid
                            == object@.versions[i].uuid && first_block@ == h,
                        _ => false,
                    },
                }
            },
{
    let n = object.versions.len();
    let mut best: Option<usize> = Option::None;
    let mut i: usize = 0;
    while i < n
        invariant
            n == object.versions@.len(),
            i <= n,
            match best {
                Option::Some(b) => {
                    &&& b < i
                    &&& (object@.versions[b as int]).state == ObjectVersionState::Complete
                    &&& forall|j: int|
                        0 <= j < i && (#[trigger] object@.versions[j]).state
                            == ObjectVersionState::Complete ==> newer_version(
                            object@.versions[b as int],
                            object@.versions[j],
                        )
                },
                Option::None => forall|j: int|
                    0 <= j < i ==> (#[trigger] object@.versions[j]).state
                        != ObjectVersionState::Complete,
            },
        decreases n - i,
    {
        let v = vstd::std_specs::vec::vec_index(&object.versions, i);
        let complete = match v.state {
            ObjectVersionState::Complete => true,
            _ => false,
        };
        if complete {
            let replace = match best {
                Option::None => true,
                Option::Some(b) => {
                    let bv = vstd::std_specs::vec::vec_index(&object.versions, b);
                    v.timestamp > bv.timestamp || (v.timestamp == bv.timestamp && v.uuid
                        >= bv.uuid)
                },
            };
            if replace {
                best = Option::Some(i);
            } else {
                proof {
                    let b = best->Some_0;
                    assert(newer_version(object@.versions[b as int], object@.versions[i as int]));
                }
            }
        }
        i = i + 1;
    }
    match best {
        Option::None => ReadPlan::NotFound,
        Option::Some(b) => {
            let v = vstd::std_specs::vec::vec_index(&object.versions, b);
            match &v.data {
                ObjectVersionData::DeleteMarker => ReadPlan::NotFound,
                ObjectVersionData::Inline(bytes) => {
                    let mut copy: Vec<u8> = Vec::new();
                    let mut k: usize = 0;
                    while k < bytes.len()
                        invariant
                            k <= bytes@.len(),
                            copy@ =~= bytes@.take(k as int),
                        decreases bytes@.len() - k,
                    {
                        copy.push(bytes[k]);
                        proof {
                            assert(copy@ =~= bytes@.take(k + 1 as int));
                        }
                        k = k + 1;
                    }
                    proof {
                        assert(bytes@.take(bytes@.len() as int) =~= bytes@);
                    }
                    ReadPlan::Inline { mime_type: v.mime_type.clone(), bytes: copy }
                },
                ObjectVersionData::FirstBlock(h) => ReadPlan::FirstBlock {
                    mime_type: v.mime_type.clone(),
                    version_uuid: v.uuid,
                    first_block: h.duplicate(),
                },
            }
        },
    }
}

/// A delete marker at the head hides the object: on a well-formed object
/// whose newest complete version is a delete marker — what a DELETE leaves
/// behind — every plan that meets what `read_plan` ensures is NotFound.
pub proof fn lemma_delete_marker_hides_object(object: ObjectV, r: ReadPlan, d: int)
    requires
        object.wf(),
        0 <= d < object.versions.len(),
        object.versions[d].state == ObjectVersionState::Complete,
        object.versions[d].data is DeleteMarker,
        forall|j: int|
            0 <= j < object.versions.len() && (#[trigger] object.versions[j]).state
                == ObjectVersionState::Complete ==> newer_version(
                object.versions[d],
                object.versions[j],
            ),
        exists|i: int|
            {
                &&& 0 <= i < object.versions.len()
                &&& (#[trigger] object.versions[i]).state == ObjectVersionState::Complete
                &&& forall|j: int|
                    0 <= j < object.versions.len() && (#[trigger] object.versions[j]).state
                        == ObjectVersionState::Complete ==> newer_version(
                        object.versions[i],
                        object.versions[j],
                    )
                &&& match object.versions[i].data {
                    ObjectVersionDataV::DeleteMarker => r is NotFound,
                    ObjectVersionDataV::Inline(b) => match r {
                        ReadPlan::Inline { mime_type, bytes } => mime_type@
                            == object.versions[i].mime_type && bytes@ == b,
                        _ => false,
                    },
                    ObjectVersionDataV::FirstBlock(h) => match r {
                        ReadPlan::FirstBlock { mime_type, version_uuid, first_block } => mime_type@
                            == object.versions[i].mime_type && version_uuid
                            == object.versions[i].uuid && first_block@ == h,
                        _ => false,
                    },
                }
            },
    ensures
        r is NotFound,
{
    let i = choose|i: int|
        {
            &&& 0 <= i < object.versions.len()
            &&& (#[trigger] object.versions[i]).state == ObjectVersionState::Complete
            &&& forall|j: int|
                0 <= j < object.versions.len() && (#[trigger] object.versions[j]).state
                    == ObjectVersionState::Complete ==> newer_version(
                    object.versions[i],
                    object.versions[j],
                )
            &&& match object.versions[i].data {
                ObjectVersionDataV::DeleteMarker => r is NotFound,
                ObjectVersionDataV::Inline(b) => match r {
                    ReadPlan::Inline { mime_type, bytes } => mime_type@
                        == object.versions[i].mime_type && bytes@ == b,
                    _ => false,
                },
                ObjectVersionDataV::FirstBlock(h) => match r {
                    ReadPlan::FirstBlock { mime_type, version_uuid, first_block } => mime_type@
                        == object.versions[i].mime_type && version_uuid
                        == object.versions[i].uuid && first_block@ == h,
                    _ => false,
                },
            }
        };
    // each of the two supersedes the other, so their timestamps agree and
    // their uuids agree; well-formedness makes uuids unique, so i == d
    assert(newer_version(object.versions[d], object.versions[i]));
    assert(newer_version(object.versions[i], object.versions[d]));
    if i != d {
        assert(object.versions[i].uuid != object.versions[d].uuid);
    }
    assert(i == d);
}

} // verus!
