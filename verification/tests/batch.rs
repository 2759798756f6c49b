use flate2::read::GzDecoder;
use gol_core::persistence::batch_deserializer::{unpack_batch, Batch, BatchDeserializerLocal};
use gol_core::persistence::batch_names::{parse_batch_stem, sorted_bounds};
use gol_core::persistence::batch_serializer::BatchIndexedSerializer;
use gol_core::persistence::preload_cache::PreloadCacheDelegate;
use gol_core::persistence::ranges::{find_range_left_idx, locate_item};
use std::io::Read;
use std::sync::Arc;

fn gunzip(data: &[u8]) -> Vec<u8> {
    let mut decoder = GzDecoder::new(data);
    let mut out = Vec::new();
    decoder.read_to_end(&mut out).unwrap();
    out
}

#[test]
fn serializer_batches_and_frames() {
    let mut s = BatchIndexedSerializer::new(2).with_header(bincode::serialize(&7u8).unwrap());
    assert!(s.push(bincode::serialize(&10u32).unwrap()).is_none());
    let b = s.push(bincode::serialize(&20u32).unwrap()).unwrap();
    assert_eq!(b.idx_beg, 0);
    assert_eq!(b.idx_end, 2);
    let raw = gunzip(&b.data);
    assert_ne!(raw, b.data);
    let decoded: (Option<u8>, Vec<(usize, u32)>) = bincode::deserialize(&raw).unwrap();
    assert_eq!(decoded, (Some(7u8), vec![(1, 10), (2, 20)]));

    assert!(s.push(bincode::serialize(&30u32).unwrap()).is_none());
    let last = s.remaining().unwrap();
    assert_eq!(last.idx_beg, 2);
    assert_eq!(last.idx_end, 3);
    let decoded: (Option<u8>, Vec<(usize, u32)>) =
        bincode::deserialize(&gunzip(&last.data)).unwrap();
    assert_eq!(decoded, (Some(7u8), vec![(3, 30)]));
    assert!(s.remaining().is_none());
}

#[test]
fn serializer_without_header_and_zero_batch_size() {
    let mut s = BatchIndexedSerializer::new(0);
    let b = s.push(bincode::serialize(&5u16).unwrap()).unwrap();
    assert_eq!((b.idx_beg, b.idx_end), (0, 1));
    let decoded: (Option<u8>, Vec<(usize, u16)>) = bincode::deserialize(&gunzip(&b.data)).unwrap();
    assert_eq!(decoded, (None, vec![(1, 5)]));
}

#[test]
fn batch_stem_parsing() {
    assert_eq!(parse_batch_stem("0_10"), Some((0, 10)));
    assert_eq!(parse_batch_stem("120_130"), Some((120, 130)));
    assert_eq!(parse_batch_stem("+3_4"), Some((3, 4)));
    assert_eq!(parse_batch_stem("3_4_5"), Some((3, 4)));
    assert_eq!(parse_batch_stem("3"), None);
    assert_eq!(parse_batch_stem("_4"), None);
    assert_eq!(parse_batch_stem("3_"), None);
    assert_eq!(parse_batch_stem("a_4"), None);
    assert_eq!(parse_batch_stem("3_-4"), None);
    assert_eq!(parse_batch_stem("18446744073709551615_1"), Some((usize::MAX, 1)));
    assert_eq!(parse_batch_stem("18446744073709551616_1"), None);
}

#[test]
fn bounds_are_sorted_and_unique() {
    let pairs = vec![(20, 30), (0, 10), (10, 20)];
    assert_eq!(sorted_bounds(&pairs), vec![0, 10, 20, 30]);
    assert_eq!(sorted_bounds(&vec![]), Vec::<usize>::new());
    assert_eq!(sorted_bounds(&vec![(5, 5)]), vec![5]);
}

#[test]
fn range_lookup() {
    let ranges = vec![0usize, 10, 20, 30];
    assert_eq!(find_range_left_idx(&0, &ranges), Some(0));
    assert_eq!(find_range_left_idx(&5, &ranges), Some(0));
    assert_eq!(find_range_left_idx(&10, &ranges), Some(1));
    assert_eq!(find_range_left_idx(&29, &ranges), None);
    assert_eq!(find_range_left_idx(&30, &ranges), None);
    assert_eq!(find_range_left_idx(&31, &ranges), None);
    assert_eq!(find_range_left_idx(&15, &ranges), Some(1));
    assert_eq!(locate_item(15, &ranges), Some((1, 5)));
    assert_eq!(locate_item(20, &ranges), Some((2, 0)));
    assert_eq!(locate_item(25, &ranges), None);
}

struct MemoryBatches {
    batches: Vec<(Option<u32>, Vec<(usize, char)>)>,
}

impl PreloadCacheDelegate<usize, Batch<u32, char>> for MemoryBatches {
    fn spec_get(&self, key: usize) -> Option<Batch<u32, char>> {
        self.get(&key)
    }

    fn get(&self, key: &usize) -> Option<Batch<u32, char>> {
        self.batches.get(*key).map(|(h, items)| {
            (
                Arc::new(*h),
                items.iter().map(|e| Arc::new(*e)).collect::<Vec<_>>(),
            )
        })
    }
}

#[test]
fn deserializer_reads_items() {
    let source = MemoryBatches {
        batches: vec![
            (Some(1), vec![(0, 'a'), (1, 'b')]),
            (Some(2), vec![(2, 'c'), (3, 'd')]),
            (Some(3), vec![(4, 'e'), (5, 'f')]),
        ],
    };
    let mut d = BatchDeserializerLocal::new(source, vec![0, 2, 4, 6]);
    let (h, item) = d.get(3).unwrap();
    assert_eq!(*h, Some(2));
    assert_eq!(*item, (3, 'd'));
    let (h, item) = d.get(0).unwrap();
    assert_eq!(*h, Some(1));
    assert_eq!(*item, (0, 'a'));
    let (_, item) = d.get(4).unwrap();
    assert_eq!(*item, (4, 'e'));
    assert!(d.get(6).is_none());
    assert!(d.get(100).is_none());
}

#[test]
fn serializer_run_keeps_header_in_every_batch() {
    let mut s = BatchIndexedSerializer::new(2).with_header(bincode::serialize(&9u8).unwrap());
    let mut batches = Vec::new();
    for v in 0u32..7 {
        if let Some(b) = s.push(bincode::serialize(&v).unwrap()) {
            batches.push(b);
        }
    }
    assert_eq!(batches.len(), 3);
    for (j, b) in batches.iter().enumerate() {
        assert_eq!((b.idx_beg, b.idx_end), (2 * j, 2 * j + 2));
        let decoded: (Option<u8>, Vec<(usize, u32)>) = bincode::deserialize(&gunzip(&b.data)).unwrap();
        let first = 2 * j as u32;
        assert_eq!(
            decoded,
            (Some(9u8), vec![(2 * j + 1, first), (2 * j + 2, first + 1)])
        );
    }
    // Seven pushes in batches of two leave one item buffered.
    let last = s.remaining().unwrap();
    assert_eq!((last.idx_beg, last.idx_end), (6, 7));
    let decoded: (Option<u8>, Vec<(usize, u32)>) = bincode::deserialize(&gunzip(&last.data)).unwrap();
    assert_eq!(decoded, (Some(9u8), vec![(7, 6)]));
}

#[test]
fn unpacking_a_batch_gives_back_its_frame() {
    let mut s = BatchIndexedSerializer::new(1).with_header(vec![4u8]);
    let b = s.push(vec![5u8, 6u8]).unwrap();
    let frame = unpack_batch(&b.data).unwrap();
    let mut expected = vec![1u8, 4u8];
    expected.extend_from_slice(&1u64.to_le_bytes());
    expected.extend_from_slice(&1u64.to_le_bytes());
    expected.extend_from_slice(&[5u8, 6u8]);
    assert_eq!(frame, expected);
    assert_eq!(frame, gunzip(&b.data));
    assert!(unpack_batch(&[1u8, 2, 3]).is_none());
    assert!(unpack_batch(&frame).is_none());
}
