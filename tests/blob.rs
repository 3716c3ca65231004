use blobstore::backend::{BackendError, MemoryBackend, StoreBackend};
use blobstore::chunk::{ChunkRef, DecodeError, Kind};
use blobstore::index::{BlobDesc, BlobIndex, BlobState};
use blobstore::store::{slice_chunk, Msg, MsgError, Reply, Store};
use blobstore::tags::Tag;

type TestStore = Store<MemoryBackend, u32>;

fn new_store(max_blob_size: usize) -> TestStore {
    let blob_index = BlobIndex::new_for_testing().unwrap();
    Store::new(blob_index, MemoryBackend::new(), max_blob_size).unwrap()
}

fn pattern(len: usize, seed: u8) -> Vec<u8> {
    (0..len).map(|i| (i as u8).wrapping_mul(31).wrapping_add(seed)).collect()
}

fn sample_chunk_lists() -> Vec<Vec<Vec<u8>>> {
    vec![
        vec![],
        vec![vec![]],
        vec![vec![1, 2, 3]],
        vec![vec![], vec![7], vec![], vec![8, 9]],
        vec![pattern(500, 1), pattern(500, 2), pattern(500, 3)],
        vec![pattern(1024, 4), pattern(1, 5), pattern(2048, 6), vec![], pattern(1023, 7)],
        (0..40).map(|i| pattern(i * 37 % 300, i as u8)).collect(),
    ]
}

fn store_ok(bs: &mut TestStore, chunk: &[u8], cb: u32) -> ChunkRef {
    match bs.handle(Msg::Store(chunk.to_vec(), Kind::TreeLeaf, cb)).reply {
        Ok(Reply::StoreOk(id)) => id,
        _ => panic!("Unexpected reply from blob store."),
    }
}

#[test]
fn identity() {
    for chunks in sample_chunk_lists() {
        let mut bs = new_store(1024);

        let mut ids = Vec::new();
        for (n, chunk) in chunks.iter().enumerate() {
            let id = store_ok(&mut bs, chunk, n as u32);
            ids.push((id, chunk));
        }

        assert_eq!(bs.handle(Msg::Flush).reply.unwrap(), Reply::FlushOk);

        // Non-empty chunks must be in the backend now:
        for &(ref id, chunk) in ids.iter() {
            if chunk.len() > 0 {
                assert!(bs.backend().retrieve(&id.blob_id[..]).is_ok());
            }
        }

        // All chunks must be available through the blob store:
        for &(ref id, chunk) in ids.iter() {
            match bs.handle(Msg::Retrieve(id.clone())).reply {
                Ok(Reply::RetrieveOk(found_chunk)) => assert_eq!(found_chunk, chunk.to_owned()),
                _ => panic!("Unexpected reply from blob store."),
            }
        }
    }
}

#[test]
fn identity_with_excessive_flushing() {
    for chunks in sample_chunk_lists() {
        let mut bs = new_store(1024);

        let mut ids = Vec::new();
        for (n, chunk) in chunks.iter().enumerate() {
            let id = store_ok(&mut bs, chunk, n as u32);
            ids.push((id, chunk));
            assert_eq!(bs.handle(Msg::Flush).reply.unwrap(), Reply::FlushOk);
            let &(ref id, chunk) = ids.last().unwrap();
            assert_eq!(
                bs.handle(Msg::Retrieve(id.clone())).reply.unwrap(),
                Reply::RetrieveOk(chunk.clone())
            );
        }

        // Non-empty chunks must be in the backend now:
        for &(ref id, chunk) in ids.iter() {
            if chunk.len() > 0 {
                assert!(bs.backend().retrieve(&id.blob_id[..]).is_ok());
            }
        }

        // All chunks must be available through the blob store:
        for &(ref id, chunk) in ids.iter() {
            match bs.handle(Msg::Retrieve(id.clone())).reply {
                Ok(Reply::RetrieveOk(found_chunk)) => assert_eq!(found_chunk, chunk.to_owned()),
                _ => panic!("Unexpected reply from blob store."),
            }
        }
    }
}

#[test]
fn blobid_identity() {
    let cases: Vec<(Vec<u8>, usize, usize)> = vec![
        (vec![], 0, 0),
        (vec![0], 0, 0),
        (vec![1, 2, 3, 4, 5, 6, 7, 8], 17, 4096),
        (pattern(300, 9), 123456789, 987654321),
        (vec![0xff; 3], 0x7fff_ffff_ffff_ffff, 0x7fff_ffff_ffff_ffff),
    ];
    for (name, offset, length) in cases {
        let blob_id = ChunkRef {
            blob_id: name.to_vec(),
            offset: offset,
            length: length,
            kind: Kind::TreeBranch,
        };
        let blob_id_bytes = blob_id.as_bytes();
        assert!(ChunkRef::from_bytes(&mut &blob_id_bytes[..]).unwrap() == blob_id);
    }
}

#[test]
fn three_chunks_share_then_split_blobs() {
    let mut bs = new_store(1024);
    let chunks = [pattern(500, 1), pattern(500, 2), pattern(500, 3)];
    let a = store_ok(&mut bs, &chunks[0], 0);
    let b = store_ok(&mut bs, &chunks[1], 1);
    // The second store brought the blob to 1000 bytes, under 1024: no flush yet.
    assert_eq!(a.blob_id, b.blob_id);
    assert_eq!((a.offset, b.offset), (0, 500));
    let h = bs.handle(Msg::Store(chunks[2].clone(), Kind::TreeLeaf, 2));
    let c = match h.reply {
        Ok(Reply::StoreOk(id)) => id,
        _ => panic!("Unexpected reply from blob store."),
    };
    // The third lands in the same blob, which then reaches 1500 bytes and is written out.
    assert_eq!(c.blob_id, a.blob_id);
    assert_eq!(c.offset, 1000);
    let fired: Vec<u32> = h.ready.iter().map(|p| p.1).collect();
    assert_eq!(fired, vec![0, 1, 2]);
    let d = store_ok(&mut bs, &chunks[0], 3);
    assert_ne!(d.blob_id, a.blob_id);
    assert_eq!(d.offset, 0);
    assert_eq!(bs.handle(Msg::Flush).reply.unwrap(), Reply::FlushOk);
    for (id, chunk) in [(&a, &chunks[0]), (&b, &chunks[1]), (&c, &chunks[2]), (&d, &chunks[0])] {
        assert_eq!(
            bs.handle(Msg::Retrieve(id.clone())).reply.unwrap(),
            Reply::RetrieveOk(chunk.clone())
        );
    }
}

#[test]
fn empty_chunk_gets_sentinel() {
    let mut bs = new_store(1024);
    store_ok(&mut bs, &[1, 2, 3], 0);
    let h = bs.handle(Msg::Store(vec![], Kind::TreeLeaf, 7));
    let expected = ChunkRef { blob_id: vec![0], offset: 0, length: 0, kind: Kind::TreeLeaf };
    assert_eq!(h.reply.unwrap(), Reply::StoreOk(expected.clone()));
    assert_eq!(h.ready.len(), 1);
    assert_eq!(h.ready[0].0, expected);
    assert_eq!(h.ready[0].1, 7);
    assert_eq!(
        bs.handle(Msg::Retrieve(expected.clone())).reply.unwrap(),
        Reply::RetrieveOk(vec![])
    );
    // The backend never holds the sentinel's blob.
    assert_eq!(bs.backend().retrieve(&[0]), Err(BackendError::NotFound));
}

#[test]
fn encode_decode_example() {
    let r = ChunkRef { blob_id: vec![0xDE, 0xAD], offset: 7, length: 13, kind: Kind::TreeBranch };
    let bytes = r.as_bytes();
    assert_eq!(
        bytes,
        vec![0, 0, 0, 0, 0, 0, 0, 2, 0xDE, 0xAD, 0, 0, 0, 0, 0, 0, 0, 7, 0, 0, 0, 0, 0, 0, 0, 13, 0]
    );
    assert_eq!(ChunkRef::read_msg(&bytes), Ok(r.clone()));
    let mut with_tail = bytes.clone();
    with_tail.extend_from_slice(&[9, 9]);
    let mut rest = &with_tail[..];
    assert_eq!(ChunkRef::from_bytes(&mut rest), Ok(r));
    assert_eq!(rest, &[9, 9]);
}

#[test]
fn decode_errors() {
    let r = ChunkRef { blob_id: vec![1, 2], offset: 1, length: 2, kind: Kind::TreeLeaf };
    let bytes = r.as_bytes();
    assert_eq!(*bytes.last().unwrap(), 1);
    for cut in 0..bytes.len() {
        let mut input = &bytes[..cut];
        assert_eq!(ChunkRef::from_bytes(&mut input), Err(DecodeError::Truncated));
        assert_eq!(input.len(), cut);
    }
    let mut bad_kind = bytes.clone();
    *bad_kind.last_mut().unwrap() = 5;
    assert_eq!(ChunkRef::read_msg(&bad_kind), Err(DecodeError::UnknownKind(5)));
    let mut negative = bytes.clone();
    negative[10] = 0x80;
    assert_eq!(ChunkRef::read_msg(&negative), Err(DecodeError::OutOfRange));
}

#[test]
fn oversized_chunk_is_flushed_at_once() {
    let mut bs = new_store(16);
    let chunk = pattern(100, 3);
    let h = bs.handle(Msg::Store(chunk.clone(), Kind::TreeLeaf, 1));
    let id = match h.reply {
        Ok(Reply::StoreOk(id)) => id,
        _ => panic!("Unexpected reply from blob store."),
    };
    assert_eq!(h.ready.len(), 1);
    assert_eq!(h.ready[0].1, 1);
    assert!(bs.backend().retrieve(&id.blob_id).is_ok());
    assert_eq!(bs.handle(Msg::Flush).reply.unwrap(), Reply::FlushOk);
    assert_eq!(bs.handle(Msg::Retrieve(id)).reply.unwrap(), Reply::RetrieveOk(chunk));
}

#[test]
fn delete_by_tag_removes_all_blobs() {
    let mut bs = new_store(64);
    let mut ids = Vec::new();
    for i in 0..10u32 {
        ids.push(store_ok(&mut bs, &pattern(40, i as u8), i));
    }
    assert_eq!(bs.handle(Msg::Flush).reply.unwrap(), Reply::FlushOk);
    assert_eq!(bs.handle(Msg::TagAll(Tag::WillDelete)).reply.unwrap(), Reply::Acknowledged);
    assert_eq!(bs.handle(Msg::DeleteByTag(Tag::WillDelete)).reply.unwrap(), Reply::Acknowledged);
    for id in ids {
        assert!(bs.backend().retrieve(&id.blob_id).is_err());
        assert_eq!(
            bs.handle(Msg::Retrieve(id)).reply,
            Err(MsgError::Backend(BackendError::NotFound))
        );
    }
}

#[test]
fn tag_one_blob_then_delete() {
    let mut bs = new_store(8);
    let a = store_ok(&mut bs, &pattern(10, 1), 0);
    let b = store_ok(&mut bs, &pattern(10, 2), 1);
    assert_ne!(a.blob_id, b.blob_id);
    assert_eq!(bs.handle(Msg::Tag(a.clone(), Tag::ReadyDelete)).reply.unwrap(), Reply::Acknowledged);
    assert_eq!(bs.handle(Msg::DeleteByTag(Tag::ReadyDelete)).reply.unwrap(), Reply::Acknowledged);
    assert!(bs.handle(Msg::Retrieve(a)).reply.is_err());
    assert_eq!(bs.handle(Msg::Retrieve(b)).reply.unwrap(), Reply::RetrieveOk(pattern(10, 2)));
}

#[test]
fn recover_is_idempotent() {
    let mut index = BlobIndex::new();
    let name = vec![0, 0, 0, 0, 0, 0, 0, 5];
    assert_eq!(index.recover(name.clone()), Ok(()));
    assert_eq!(index.recover(name.clone()), Ok(()));
    let tagged = {
        index.tag_all(Tag::Done);
        index.list_by_tag(Tag::Done)
    };
    assert_eq!(tagged, vec![BlobDesc { id: 1, name: name.clone() }]);

    let mut bs = new_store(1024);
    let r = ChunkRef { blob_id: name.clone(), offset: 0, length: 3, kind: Kind::TreeLeaf };
    assert_eq!(bs.handle(Msg::Recover(r.clone())).reply.unwrap(), Reply::RecoverOk);
    assert_eq!(bs.handle(Msg::Recover(r)).reply.unwrap(), Reply::RecoverOk);
    bs.handle(Msg::TagAll(Tag::Complete));
    // The store's own first blob and the recovered one.
    assert_eq!(bs.handle(Msg::DeleteByTag(Tag::Complete)).reply.unwrap(), Reply::Acknowledged);
}

#[test]
fn index_lifecycle() {
    let mut index = BlobIndex::new();
    let d = index.reserve().unwrap();
    assert_eq!(d.id, 1);
    assert_eq!(d.name, vec![0, 0, 0, 0, 0, 0, 0, 1]);
    index.in_air(&d);
    index.commit_done(&d);
    let e = index.reserve().unwrap();
    assert_eq!(e.name, vec![0, 0, 0, 0, 0, 0, 0, 2]);
    index.tag(&BlobDesc { id: 0, name: e.name.clone() }, Tag::InProgress);
    assert_eq!(index.list_by_tag(Tag::InProgress), vec![e.clone()]);
    index.delete_by_tag(Tag::InProgress);
    assert_eq!(index.list_by_tag(Tag::InProgress), vec![]);
    index.tag_all(Tag::Reserved);
    assert_eq!(index.list_by_tag(Tag::Reserved), vec![d]);
    assert_eq!(index.reset(), Ok(()));
    assert_eq!(index.list_by_tag(Tag::Reserved), vec![]);
    let _ = BlobState::Committed;
}

#[test]
fn reserve_skips_recovered_names() {
    let mut index = BlobIndex::new();
    index.recover(vec![0, 0, 0, 0, 0, 0, 0, 2]).unwrap();
    let d = index.reserve().unwrap();
    assert_eq!(d.id, 3);
    assert_eq!(d.name, vec![0, 0, 0, 0, 0, 0, 0, 3]);
}

#[test]
fn named_blobs_pass_through() {
    let mut bs = new_store(1024);
    assert_eq!(
        bs.handle(Msg::StoreNamed("root".to_string(), vec![4, 5, 6])).reply.unwrap(),
        Reply::StoreNamedOk("root".to_string())
    );
    assert_eq!(
        bs.handle(Msg::RetrieveNamed("root".to_string())).reply.unwrap(),
        Reply::RetrieveOk(vec![4, 5, 6])
    );
    assert!(bs.handle(Msg::RetrieveNamed("none".to_string())).reply.is_err());
}

#[test]
fn retrieve_out_of_range() {
    let mut bs = new_store(4);
    let id = store_ok(&mut bs, &[1, 2, 3, 4], 0);
    let mut past = id.clone();
    past.offset = 2;
    past.length = 5;
    assert_eq!(bs.handle(Msg::Retrieve(past)).reply, Err(MsgError::OutOfRange));
}

#[test]
fn memory_backend_store_retrieve_delete() {
    let mut b = MemoryBackend::new();
    assert_eq!(b.retrieve(b"x"), Err(BackendError::NotFound));
    b.store(b"x", &[1]).unwrap();
    b.store(b"y", &[2]).unwrap();
    b.store(b"x", &[3]).unwrap();
    assert_eq!(b.retrieve(b"x"), Ok(vec![3]));
    b.delete(b"x").unwrap();
    assert_eq!(b.retrieve(b"x"), Err(BackendError::NotFound));
    assert_eq!(b.retrieve(b"y"), Ok(vec![2]));
}

#[test]
fn reset_starts_over() {
    let mut bs = new_store(1024);
    store_ok(&mut bs, &[1, 2], 0);
    assert_eq!(bs.reset(), Ok(()));
    let id = store_ok(&mut bs, &[3], 1);
    assert_eq!(id.offset, 0);
    assert_eq!(id.blob_id, vec![0, 0, 0, 0, 0, 0, 0, 1]);
}

#[test]
fn staging_stays_under_bound() {
    let mut bs = new_store(100);
    let sizes = [30usize, 60, 5, 250, 1, 99, 100, 0, 42];
    let largest = 250;
    for (n, size) in sizes.iter().enumerate() {
        store_ok(&mut bs, &pattern(*size, n as u8), n as u32);
        assert!(bs.staged_len() <= 100 + largest);
        assert!(bs.staged_len() < 100);
    }
}

#[test]
fn slice_chunk_cuts_or_refuses() {
    let blob = vec![10u8, 11, 12, 13, 14];
    let r = ChunkRef { blob_id: vec![1], offset: 1, length: 3, kind: Kind::TreeLeaf };
    assert_eq!(slice_chunk(&blob, &r), Ok(vec![11, 12, 13]));
    let past = ChunkRef { blob_id: vec![1], offset: 3, length: 3, kind: Kind::TreeLeaf };
    assert_eq!(slice_chunk(&blob, &past), Err(MsgError::OutOfRange));
}

#[test]
fn store_reports_no_failure_when_flush_succeeds() {
    let mut bs = new_store(4);
    let h = bs.handle(Msg::Store(vec![1, 2, 3, 4, 5], Kind::TreeBranch, 9));
    assert!(h.failure.is_none());
    assert_eq!(h.ready.len(), 1);
    assert_eq!(bs.staged_len(), 0);
    let h = bs.handle(Msg::Flush);
    assert_eq!(h.reply.unwrap(), Reply::FlushOk);
    assert!(h.ready.is_empty());
}

#[test]
fn delete_by_tag_with_nothing_tagged() {
    let mut bs = new_store(4);
    store_ok(&mut bs, &[1, 2, 3, 4], 0);
    assert_eq!(bs.delete_by_tag(Tag::Done), Ok(()));
}
