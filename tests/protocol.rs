use spl::config::{TransferConfig, CHUNK_SIZE_BASE, MAX_RETRIES, MAX_WORKERS, SERVER_PORT};
use spl::framing::{be32_bytes, encode_frame, frame_length};
use spl::handshake::{accept_key, key_frame, key_length};
use spl::retry::after_failure;
use spl::schedule::{plan_chunks, total_chunks, worker_count, Chunk, ChunkQueue};
use spl::transfer::{be64_bytes, read_placement, receive_chunk, seal_chunk, TransferError};

fn test_key() -> Vec<u8> {
    (100u8..132).collect()
}

/// Reads frames off a closed stream the way a receiver does.
fn read_frames(stream: &[u8]) -> Result<Vec<Vec<u8>>, ()> {
    let mut frames = Vec::new();
    let mut pos = 0;
    loop {
        let end = (pos + 4).min(stream.len());
        let n = match frame_length(&stream[pos..end]) {
            None => return Ok(frames),
            Some(n) => n as usize,
        };
        pos = end;
        if stream.len() - pos < n {
            return Err(());
        }
        frames.push(stream[pos..pos + n].to_vec());
        pos += n;
    }
}

#[test]
fn be32_is_big_endian() {
    assert_eq!(be32_bytes(0x01020304), vec![1, 2, 3, 4]);
    assert_eq!(be32_bytes(32), vec![0, 0, 0, 32]);
    assert_eq!(be64_bytes(0x0102030405060708), vec![1, 2, 3, 4, 5, 6, 7, 8]);
}

#[test]
fn frame_is_length_then_payload() {
    assert_eq!(encode_frame(b"abc"), vec![0, 0, 0, 3, b'a', b'b', b'c']);
    assert_eq!(encode_frame(&[]), vec![0, 0, 0, 0]);
}

#[test]
fn short_length_read_is_clean_end() {
    assert_eq!(frame_length(&[]), None);
    assert_eq!(frame_length(&[0, 0, 1]), None);
    assert_eq!(frame_length(&[0, 0, 1, 2]), Some(258));
    assert_eq!(frame_length(&[0xff, 0xff, 0xff, 0xff, 9]), Some(u32::MAX));
}

#[test]
fn interleaved_whole_frames_read_back() {
    let a1 = encode_frame(b"writer a one");
    let b1 = encode_frame(b"writer b one");
    let a2 = encode_frame(b"writer a two");
    let mut stream = Vec::new();
    for f in [&a1, &b1, &a2] {
        stream.extend_from_slice(f);
    }
    let frames = read_frames(&stream).unwrap();
    assert_eq!(
        frames,
        vec![b"writer a one".to_vec(), b"writer b one".to_vec(), b"writer a two".to_vec()]
    );
}

#[test]
fn five_megabytes_make_three_chunks() {
    let size = 5 * 1024 * 1024;
    assert_eq!(total_chunks(size, CHUNK_SIZE_BASE), 3);
    let plan = plan_chunks(size, CHUNK_SIZE_BASE);
    assert_eq!(
        plan,
        vec![
            Chunk { index: 0, offset: 0, size: 2097152 },
            Chunk { index: 1, offset: 2097152, size: 2097152 },
            Chunk { index: 2, offset: 4194304, size: 1048576 },
        ]
    );
}

#[test]
fn exact_multiple_has_full_last_chunk() {
    let plan = plan_chunks(12, 4);
    assert_eq!(plan.len(), 3);
    assert_eq!(plan[2], Chunk { index: 2, offset: 8, size: 4 });
    assert_eq!(plan.iter().map(|c| c.size).sum::<usize>(), 12);
}

#[test]
fn chunk_partition_sums_to_file_size() {
    for size in 0..40usize {
        for c in 1..9usize {
            let plan = plan_chunks(size, c);
            assert_eq!(plan.len(), total_chunks(size, c));
            let mut next = 0u64;
            for (i, ch) in plan.iter().enumerate() {
                assert_eq!(ch.index, i);
                assert_eq!(ch.offset, next);
                assert!(ch.size > 0 && ch.size <= c);
                next += ch.size as u64;
            }
            assert_eq!(next, size as u64);
            if let Some(last) = plan.last() {
                let rem = size % c;
                assert_eq!(last.size, if rem == 0 { c } else { rem });
            }
        }
    }
}

#[test]
fn empty_file_has_no_chunks() {
    assert_eq!(total_chunks(0, 4), 0);
    assert!(plan_chunks(0, 4).is_empty());
    assert_eq!(worker_count(0, MAX_WORKERS), 0);
}

#[test]
fn largest_file_size_counts_without_overflow() {
    assert_eq!(total_chunks(usize::MAX, 1), usize::MAX);
    assert_eq!(total_chunks(usize::MAX, 2), usize::MAX / 2 + 1);
}

#[test]
fn workers_bounded_by_chunks() {
    assert_eq!(worker_count(3, MAX_WORKERS), 3);
    assert_eq!(worker_count(10, MAX_WORKERS), 4);
    assert_eq!(worker_count(4, MAX_WORKERS), 4);
}

#[test]
fn queue_hands_out_each_chunk_once() {
    let plan = plan_chunks(10, 3);
    let mut queue = ChunkQueue::new(plan.clone());
    let mut seen = vec![0u32; plan.len()];
    let schedule = [2usize, 0, 1, 1, 3, 0, 2];
    let mut by_worker = vec![Vec::new(); 4];
    for w in schedule {
        if let Some(c) = queue.claim() {
            seen[c.index] += 1;
            by_worker[w].push(c.index);
        }
    }
    assert_eq!(queue.remaining(), 0);
    assert_eq!(queue.claim(), None);
    assert!(seen.iter().all(|&n| n == 1));
    assert_eq!(by_worker.iter().map(|v| v.len()).sum::<usize>(), plan.len());
}

#[test]
fn retries_exhaust_after_max() {
    let mut used = 0u8;
    let mut attempts = 1;
    loop {
        match after_failure(used, MAX_RETRIES) {
            Some(n) => {
                assert_eq!(n, used + 1);
                used = n;
                attempts += 1;
            }
            None => break,
        }
    }
    assert_eq!(used, 3);
    assert_eq!(attempts, 4);
    assert_eq!(after_failure(0, 0), None);
}

#[test]
fn standard_config_values() {
    let c = TransferConfig::standard();
    assert_eq!(c.server_port, SERVER_PORT);
    assert_eq!(c.server_port, 5001);
    assert_eq!(c.discovery_port, 5000);
    assert_eq!(c.discovery_timeout_secs, 5);
    assert_eq!(c.max_retries, 3);
    assert_eq!(c.chunk_size, 2 * 1024 * 1024);
    assert_eq!(c.max_workers, 4);
}

#[test]
fn key_exchange_round_trip() {
    let key = test_key();
    let frame = key_frame(&key);
    assert_eq!(frame.len(), 36);
    assert_eq!(&frame[..4], &[0, 0, 0, 32]);
    assert_eq!(key_length(&frame[..4]), Ok(32));
    assert_eq!(accept_key(&frame[4..]), Ok(key));
}

#[test]
fn malformed_key_exchange_is_fatal() {
    assert_eq!(key_length(&[0, 0, 0]), Err(TransferError::HandshakeError));
    assert_eq!(key_length(&[0, 0, 0, 16]), Err(TransferError::HandshakeError));
    assert_eq!(accept_key(&[1u8; 31]), Err(TransferError::HandshakeError));
}

#[test]
fn sealed_chunk_places_at_offset() {
    let key = test_key();
    let data = b"chunk contents".to_vec();
    let frame = seal_chunk(&key, 4096, &data);
    let n = frame_length(&frame[..4]).unwrap();
    assert_eq!(n as usize, frame.len() - 4);
    let p = receive_chunk(&key, n, &frame[4..], MAX_RETRIES).unwrap();
    assert_eq!(p.offset, 4096);
    assert_eq!(p.data, data);
}

#[test]
fn short_payload_is_framing_error() {
    let key = test_key();
    let frame = seal_chunk(&key, 0, b"abc");
    let n = frame_length(&frame[..4]).unwrap();
    let got = &frame[4..frame.len() - 5];
    assert_eq!(receive_chunk(&key, n, got, MAX_RETRIES), Err(TransferError::FramingError));
}

#[test]
fn tampered_payload_fails_after_retries() {
    let key = test_key();
    let mut frame = seal_chunk(&key, 0, b"abc");
    let last = frame.len() - 1;
    frame[last] ^= 0x80;
    let n = frame_length(&frame[..4]).unwrap();
    assert_eq!(receive_chunk(&key, n, &frame[4..], MAX_RETRIES), Err(TransferError::MacVerificationFailed));
    assert_eq!(receive_chunk(&key, 40, &[0u8; 40], 0), Err(TransferError::ChunkTooSmall));
}

#[test]
fn placement_needs_offset() {
    assert_eq!(read_placement(&[0, 0, 0, 0, 0, 0, 1]), Err(TransferError::ChunkTooSmall));
    let p = read_placement(&[0, 0, 0, 0, 0, 0, 1, 0, 9]).unwrap();
    assert_eq!(p.offset, 256);
    assert_eq!(p.data, vec![9]);
}

/// Runs a receiver over a closed in-memory stream, placing every chunk at
/// its offset.
fn receive_stream(stream: &[u8]) -> Result<Vec<u8>, TransferError> {
    let n = key_length(&stream[..4])?;
    let key = accept_key(&stream[4..4 + n])?;
    let mut out = Vec::new();
    let mut pos = 4 + n;
    loop {
        let end = (pos + 4).min(stream.len());
        let declared = match frame_length(&stream[pos..end]) {
            None => return Ok(out),
            Some(d) => d,
        };
        pos = end;
        let stop = (pos + declared as usize).min(stream.len());
        let p = receive_chunk(&key, declared, &stream[pos..stop], MAX_RETRIES)?;
        pos = stop;
        let at = p.offset as usize;
        if out.len() < at + p.data.len() {
            out.resize(at + p.data.len(), 0);
        }
        out[at..at + p.data.len()].copy_from_slice(&p.data);
    }
}

#[test]
fn end_to_end_five_megabytes_out_of_order() {
    let key = test_key();
    let size = 5 * 1024 * 1024;
    let file: Vec<u8> = (0..size).map(|i| (i * 31 % 251) as u8).collect();
    let plan = plan_chunks(size, CHUNK_SIZE_BASE);
    assert_eq!(plan.iter().map(|c| c.size).collect::<Vec<_>>(), vec![2097152, 2097152, 1048576]);
    let mut stream = key_frame(&key);
    let mut queue = ChunkQueue::new(plan);
    while let Some(c) = queue.claim() {
        let start = c.offset as usize;
        let frame = seal_chunk(&key, c.offset, &file[start..start + c.size]);
        stream.extend_from_slice(&frame);
    }
    assert_eq!(receive_stream(&stream), Ok(file));
}

#[test]
fn truncated_stream_is_framing_error() {
    let key = test_key();
    let mut stream = key_frame(&key);
    let frame = seal_chunk(&key, 0, b"some data");
    stream.extend_from_slice(&frame[..frame.len() - 3]);
    assert_eq!(receive_stream(&stream), Err(TransferError::FramingError));
}

#[test]
fn declared_length_beyond_stream_is_framing_error() {
    let key = test_key();
    let mut stream = key_frame(&key);
    stream.extend_from_slice(&[0, 0, 1, 0]);
    stream.extend_from_slice(&[5u8; 10]);
    assert_eq!(receive_stream(&stream), Err(TransferError::FramingError));
}

#[test]
fn stream_ending_mid_length_is_clean() {
    let key = test_key();
    let mut stream = key_frame(&key);
    stream.extend_from_slice(&seal_chunk(&key, 0, b"xy"));
    stream.extend_from_slice(&[0, 0]);
    assert_eq!(receive_stream(&stream), Ok(b"xy".to_vec()));
}
