//! Groups numbered items into batches and encodes each batch as one
//! compressed block.
//!
//! Items and the header arrive already encoded; a batch is framed the way
//! `bincode` encodes `(Option<&U>, &Vec<(usize, T)>)`: a tag byte for the
//! header (`0` for none, `1` followed by the header), the number of items as
//! a little-endian `u64`, then every item as its number (a little-endian
//! `u64`) followed by its bytes. The frame is then gzip-compressed, and
//! decompressing a batch gives the frame back.

use flate2::read::GzDecoder;
use flate2::write::GzEncoder;
use flate2::Compression;
use std::io::{Read, Write};
use vstd::prelude::*;

verus! {

/// The gzip stream that `flate2` produces for `data` at the fast level.
pub uninterp spec fn gzip_fast(data: Seq<u8>) -> Seq<u8>;

/// What `flate2::read::GzDecoder` yields for `data` when read to the end:
/// the bytes of the first gzip member, or nothing where it reports an error.
pub uninterp spec fn gunzip(data: Seq<u8>) -> Option<Seq<u8>>;

/// Compresses `data` with `flate2::write::GzEncoder` at
/// `Compression::fast()` into a `Vec`, and returns the finished stream; the
/// result is `gzip_fast(data)`, and `GzDecoder` reads `data` back out of it.
/// Writing into a `Vec` does not fail, and the gzip header flate2 writes by
/// default holds no time stamp, so the stream depends on `data` alone.
#[verifier::external_body]
fn compress_fast(data: &[u8]) -> (r: Vec<u8>)
    ensures
        r@ == gzip_fast(data@),
        gunzip(r@) == Some(data@),
{
    let mut encoder = GzEncoder::new(Vec::new(), Compression::fast());
    encoder.write_all(data).unwrap();
    encoder.finish().unwrap()
}

/// Reads `data` through `flate2::read::GzDecoder` to the end: the
/// decompressed bytes, or `None` where the decoder reports an error. The
/// result is `gunzip(data)`.
#[verifier::external_body]
pub(crate) fn decompress(data: &[u8]) -> (r: Option<Vec<u8>>)
    ensures
        match r {
            Some(d) => gunzip(data@) == Some(d@),
            None => gunzip(data@) is None,
        },
{
    let mut out = Vec::new();
    match GzDecoder::new(data).read_to_end(&mut out) {
        Ok(_) => Some(out),
        Err(_) => None,
    }
}

/// `v` as `n` little-endian bytes.
pub open spec fn le_bytes(v: nat, n: nat) -> Seq<u8>
    decreases n,
{
    if n == 0 {
        seq![]
    } else {
        seq![(v % 256) as u8] + le_bytes(v / 256, (n - 1) as nat)
    }
}

/// The items of a batch, each as its number and its bytes.
pub open spec fn frame_items(items: Seq<(usize, Seq<u8>)>) -> Seq<u8>
    decreases items.len(),
{
    if items.len() == 0 {
        seq![]
    } else {
        frame_items(items.drop_last()) + le_bytes(items.last().0 as nat, 8) + items.last().1
    }
}

/// The frame of a batch with an optional header.
pub open spec fn frame(header: Option<Seq<u8>>, items: Seq<(usize, Seq<u8>)>) -> Seq<u8> {
    let tag = match header {
        None => seq![0u8],
        Some(h) => seq![1u8] + h,
    };
    tag + le_bytes(items.len() as nat, 8) + frame_items(items)
}

fn push_u64_le(out: &mut Vec<u8>, v: u64)
    ensures
        final(out)@ == old(out)@ + le_bytes(v as nat, 8),
{
    let ghost start = old(out)@;
    let mut x = v;
    let mut i: u64 = 0;
    while i < 8
        invariant
            i <= 8,
            start + le_bytes(v as nat, 8) == out@ + le_bytes(x as nat, (8 - i) as nat),
        decreases 8 - i,
    {
        proof {
            assert(le_bytes(x as nat, (8 - i) as nat) == seq![(x % 256) as u8] + le_bytes(
                (x / 256) as nat,
                (8 - i - 1) as nat,
            ));
        }
        let ghost prev = out@;
        out.push((x % 256) as u8);
        proof {
            assert(out@ == prev + seq![(x % 256) as u8]);
        }
        x = x / 256;
        i = i + 1;
    }
    assert(le_bytes(x as nat, 0) == Seq::<u8>::empty());
    assert(out@ =~= start + le_bytes(v as nat, 8));
}

fn push_bytes(out: &mut Vec<u8>, bytes: &Vec<u8>)
    ensures
        final(out)@ == old(out)@ + bytes@,
{
    let ghost start = old(out)@;
    let n = bytes.len();
    for i in 0..n
        invariant
            n == bytes@.len(),
            out@ == start + bytes@.subrange(0, i as int),
    {
        out.push(bytes[i]);
        assert(out@ =~= start + bytes@.subrange(0, i + 1));
    }
    assert(bytes@.subrange(0, n as int) == bytes@);
}

/// A compressed batch and the numbers of the items it holds: those above
/// `idx_beg` up to `idx_end`.
pub struct IndexedBatchData {
    pub idx_beg: usize,
    pub idx_end: usize,
    pub data: Vec<u8>,
}

/// The model of a serializer.
pub ghost struct BatchModel {
    pub batch_size: usize,
    pub iter_count: usize,
    pub buffer: Seq<(usize, Seq<u8>)>,
    pub header: Option<Seq<u8>>,
}

/// Numbers pushed items from one on and emits a compressed batch every
/// `batch_size` items.
pub struct BatchIndexedSerializer {
    batch_size: usize,
    iter_count: usize,
    history_buffer: Vec<(usize, Vec<u8>)>,
    header: Option<Vec<u8>>,
}

/// The items of a buffer, each by its number and the view of its bytes.
pub open spec fn item_views(items: Seq<(usize, Vec<u8>)>) -> Seq<(usize, Seq<u8>)> {
    items.map_values(|e: (usize, Vec<u8>)| (e.0, e.1@))
}

impl View for BatchIndexedSerializer {
    type V = BatchModel;

    closed spec fn view(&self) -> BatchModel {
        BatchModel {
            batch_size: self.batch_size,
            iter_count: self.iter_count,
            buffer: item_views(self.history_buffer@),
            header: match self.header {
                None => None,
                Some(h) => Some(h@),
            },
        }
    }
}

/// The buffer holds the last items pushed, numbered up to `iter_count`,
/// and fewer than a batch of them.
pub open spec fn batch_wf(m: BatchModel) -> bool {
    &&& m.batch_size >= 1
    &&& m.buffer.len() < m.batch_size
    &&& m.buffer.len() <= m.iter_count
    &&& forall|j: int|
        0 <= j < m.buffer.len() ==> (#[trigger] m.buffer[j]).0 == m.iter_count - m.buffer.len() + 1 + j
}

/// The model after pushing the encoded item `item`.
pub open spec fn push_model(m: BatchModel, item: Seq<u8>) -> BatchModel {
    let full = m.buffer.push(((m.iter_count + 1) as usize, item));
    BatchModel {
        iter_count: (m.iter_count + 1) as usize,
        buffer: if full.len() >= m.batch_size {
            seq![]
        } else {
            full
        },
        ..m
    }
}

/// The batch that pushing `item` emits, as its first and last item numbers
/// (the first one exclusive) and its bytes; none while the batch fills.
pub open spec fn push_output(m: BatchModel, item: Seq<u8>) -> Option<(usize, usize, Seq<u8>)> {
    let full = m.buffer.push(((m.iter_count + 1) as usize, item));
    if full.len() >= m.batch_size {
        Some(
            (
                (m.iter_count + 1 - full.len()) as usize,
                (m.iter_count + 1) as usize,
                gzip_fast(frame(m.header, full)),
            ),
        )
    } else {
        None
    }
}

/// A batch by its item numbers and the view of its bytes.
pub open spec fn batch_view(b: Option<IndexedBatchData>) -> Option<(usize, usize, Seq<u8>)> {
    match b {
        None => None,
        Some(d) => Some((d.idx_beg, d.idx_end, d.data@)),
    }
}

/// The model after pushing each of `items`, in order.
pub open spec fn push_run(m: BatchModel, items: Seq<Seq<u8>>) -> BatchModel
    decreases items.len(),
{
    if items.len() == 0 {
        m
    } else {
        push_model(push_run(m, items.drop_last()), items.last())
    }
}

/// The batches emitted while pushing each of `items`, in order.
pub open spec fn run_batches(m: BatchModel, items: Seq<Seq<u8>>) -> Seq<(usize, usize, Seq<u8>)>
    decreases items.len(),
{
    if items.len() == 0 {
        seq![]
    } else {
        let prev = run_batches(m, items.drop_last());
        match push_output(push_run(m, items.drop_last()), items.last()) {
            Some(b) => prev.push(b),
            None => prev,
        }
    }
}

/// Over any run of pushes, the serializer keeps its header and batch size
/// and counts every item, and every batch it emits holds exactly one batch
/// of items, numbered consecutively, framed with the header it was given.
pub proof fn lemma_run_keeps_header(m: BatchModel, items: Seq<Seq<u8>>)
    requires
        batch_wf(m),
        m.iter_count + items.len() <= usize::MAX,
    ensures
        batch_wf(push_run(m, items)),
        push_run(m, items).header == m.header,
        push_run(m, items).batch_size == m.batch_size,
        push_run(m, items).iter_count == m.iter_count + items.len(),
        forall|j: int|
            0 <= j < run_batches(m, items).len() ==> {
                let b = #[trigger] run_batches(m, items)[j];
                &&& b.1 == b.0 + m.batch_size
                &&& exists|x: Seq<(usize, Seq<u8>)>|
                    x.len() == m.batch_size && (forall|i: int| 0 <= i < x.len() ==> (#[trigger] x[i]).0 == b.0 + 1 + i)
                        && b.2 == gzip_fast(frame(m.header, x))
            },
    decreases items.len(),
{
    if items.len() > 0 {
        let init = items.drop_last();
        lemma_run_keeps_header(m, init);
        let pm = push_run(m, init);
        let item = items.last();
        let full = pm.buffer.push(((pm.iter_count + 1) as usize, item));
        let nm = push_model(pm, item);
        assert(batch_wf(nm)) by {
            if full.len() < pm.batch_size {
                assert forall|j: int| 0 <= j < nm.buffer.len() implies (#[trigger] nm.buffer[j]).0
                    == nm.iter_count - nm.buffer.len() + 1 + j by {
                    if j < pm.buffer.len() {
                        assert(nm.buffer[j] == pm.buffer[j]);
                    }
                }
            }
        }
        let prev = run_batches(m, init);
        match push_output(pm, item) {
            Some(b) => {
                assert(run_batches(m, items) == prev.push(b));
                assert(full.len() == m.batch_size);
                assert forall|i: int| 0 <= i < full.len() implies (#[trigger] full[i]).0 == b.0 + 1 + i by {
                    if i < pm.buffer.len() {
                        assert(full[i] == pm.buffer[i]);
                    }
                }
                assert forall|j: int| 0 <= j < run_batches(m, items).len() implies {
                    let c = #[trigger] run_batches(m, items)[j];
                    &&& c.1 == c.0 + m.batch_size
                    &&& exists|x: Seq<(usize, Seq<u8>)>|
                        x.len() == m.batch_size && (forall|i: int| 0 <= i < x.len() ==> (#[trigger] x[i]).0 == c.0 + 1 + i)
                            && c.2 == gzip_fast(frame(m.header, x))
                } by {
                    if j == prev.len() {
                        assert(run_batches(m, items)[j] == b);
                        assert(pm.header == m.header);
                        assert(b.2 == gzip_fast(frame(m.header, full)));
                        assert(full.len() == m.batch_size && (forall|i: int| 0 <= i < full.len() ==> (#[trigger] full[i]).0 == b.0 + 1 + i)
                            && b.2 == gzip_fast(frame(m.header, full)));
                    } else {
                        assert(run_batches(m, items)[j] == prev[j]);
                    }
                }
            },
            None => {
                assert(run_batches(m, items) == prev);
            },
        }
    }
}

/// Over any run of pushes, the items pushed and those buffered before are
/// grouped into whole batches: as many batches are emitted as fit, and what
/// is left, fewer than a batch, stays buffered. From an empty buffer, after
/// `n` pushes the buffer holds `n % batch_size` items.
pub proof fn lemma_run_buffer(m: BatchModel, items: Seq<Seq<u8>>)
    requires
        batch_wf(m),
        m.iter_count + items.len() <= usize::MAX,
    ensures
        push_run(m, items).buffer.len() == (m.buffer.len() + items.len()) as int % (m.batch_size as int),
        run_batches(m, items).len() == (m.buffer.len() + items.len()) as int / (m.batch_size as int),
    decreases items.len(),
{
    let bs = m.batch_size as int;
    if items.len() > 0 {
        let init = items.drop_last();
        lemma_run_buffer(m, init);
        lemma_run_keeps_header(m, init);
        let pm = push_run(m, init);
        let t = (m.buffer.len() + init.len()) as int;
        let q = t / bs;
        let rem = t % bs;
        assert(t == q * bs + rem && 0 <= rem < bs) by (nonlinear_arith)
            requires
                bs >= 1,
                q == t / bs,
                rem == t % bs,
        ;
        if rem + 1 == bs {
            assert((t + 1) % bs == 0 && (t + 1) / bs == q + 1) by (nonlinear_arith)
                requires
                    bs >= 1,
                    t == q * bs + rem,
                    rem + 1 == bs,
            ;
        } else {
            assert((t + 1) % bs == rem + 1 && (t + 1) / bs == q) by (nonlinear_arith)
                requires
                    bs >= 1,
                    t == q * bs + rem,
                    0 <= rem,
                    rem + 1 < bs,
            ;
        }
        let prev = run_batches(m, init);
        match push_output(pm, items.last()) {
            Some(b) => {
                assert(run_batches(m, items) == prev.push(b));
            },
            None => {
                assert(run_batches(m, items) == prev);
            },
        }
    } else {
        assert(m.buffer.len() as int % bs == m.buffer.len() as int) by (nonlinear_arith)
            requires
                bs >= 1,
                0 <= m.buffer.len() < bs,
        ;
        assert(m.buffer.len() as int / bs == 0) by (nonlinear_arith)
            requires
                bs >= 1,
                0 <= m.buffer.len() < bs,
        ;
    }
}

impl BatchIndexedSerializer {
    /// Batches of `batch_size` items, at least one.
    pub fn new(batch_size: usize) -> (r: Self)
        ensures
            batch_wf(r@),
            r@.batch_size == if batch_size < 1 { 1 } else { batch_size },
            r@.iter_count == 0,
            r@.buffer.len() == 0,
            r@.header is None,
    {
        let batch_size = if batch_size < 1 {
            1
        } else {
            batch_size
        };
        let r = Self { batch_size, iter_count: 0, history_buffer: Vec::new(), header: None };
        assert(item_views(r.history_buffer@) =~= seq![]);
        r
    }

    /// The same serializer with the encoded header `header` in every batch.
    pub fn with_header(self, header: Vec<u8>) -> (r: Self)
        ensures
            r@ == (BatchModel { header: Some(header@), ..self@ }),
    {
        let mut res = self;
        res.header = Some(header);
        res
    }

    /// Numbers the encoded item `item` with the next number and buffers it;
    /// once the buffer holds a batch, returns the batch and empties the buffer.
    pub fn push(&mut self, item: Vec<u8>) -> (r: Option<IndexedBatchData>)
        requires
            batch_wf(old(self)@),
            old(self)@.iter_count < usize::MAX,
        ensures
            batch_wf(final(self)@),
            final(self)@.batch_size == old(self)@.batch_size,
            final(self)@.header == old(self)@.header,
            final(self)@.iter_count == old(self)@.iter_count + 1,
            final(self)@ == push_model(old(self)@, item@),
            batch_view(r) == push_output(old(self)@, item@),
            ({
                let full = old(self)@.buffer.push(((old(self)@.iter_count + 1) as usize, item@));
                if full.len() >= old(self)@.batch_size {
                    &&& final(self)@.buffer.len() == 0
                    &&& r matches Some(b) && b.idx_beg == old(self)@.iter_count + 1 - full.len()
                        && b.idx_end == old(self)@.iter_count + 1
                        && b.data@ == gzip_fast(frame(old(self)@.header, full))
                        && gunzip(b.data@) == Some(frame(old(self)@.header, full))
                } else {
                    &&& final(self)@.buffer == full
                    &&& r is None
                }
            }),
    {
        self.iter_count = self.iter_count + 1;
        let ghost prev = self.history_buffer@;
        let ghost item_view = item@;
        self.history_buffer.push((self.iter_count, item));
        proof {
            assert(self.history_buffer@ == prev.push((self.iter_count, self.history_buffer@.last().1)));
            assert(item_views(self.history_buffer@) =~= item_views(prev).push((self.iter_count, item_view)));
        }
        if self.history_buffer.len() >= self.batch_size {
            let serialized = self.serialize_and_clear_buffer();
            Some(serialized)
        } else {
            None
        }
    }

    /// The buffered items as a last batch, or nothing when none is buffered.
    pub fn remaining(&mut self) -> (r: Option<IndexedBatchData>)
        requires
            batch_wf(old(self)@),
        ensures
            batch_wf(final(self)@),
            final(self)@ == (BatchModel { buffer: seq![], ..old(self)@ }),
            old(self)@.buffer.len() == 0 ==> r is None,
            old(self)@.buffer.len() > 0 ==> (r matches Some(b) && b.idx_beg == old(self)@.iter_count
                - old(self)@.buffer.len() && b.idx_end == old(self)@.iter_count && b.data@ == gzip_fast(
                frame(old(self)@.header, old(self)@.buffer),
            ) && gunzip(b.data@) == Some(frame(old(self)@.header, old(self)@.buffer))),
    {
        if self.history_buffer.len() == 0 {
            assert(item_views(self.history_buffer@) =~= seq![]);
            None
        } else {
            Some(self.serialize_and_clear_buffer())
        }
    }

    fn serialize_and_clear_buffer(&mut self) -> (r: IndexedBatchData)
        requires
            old(self)@.buffer.len() <= old(self)@.iter_count,
            old(self)@.batch_size >= 1,
        ensures
            final(self)@ == (BatchModel { buffer: seq![], ..old(self)@ }),
            r.idx_beg == old(self)@.iter_count - old(self)@.buffer.len(),
            r.idx_end == old(self)@.iter_count,
            r.data@ == gzip_fast(frame(old(self)@.header, old(self)@.buffer)),
            gunzip(r.data@) == Some(frame(old(self)@.header, old(self)@.buffer)),
    {
        let idx_beg = self.iter_count - self.history_buffer.len();
        let idx_end = self.iter_count;
        let ghost items = item_views(self.history_buffer@);
        let ghost header = self@.header;
        let mut out: Vec<u8> = Vec::new();
        match &self.header {
            None => {
                out.push(0u8);
            },
            Some(h) => {
                out.push(1u8);
                push_bytes(&mut out, h);
            },
        }
        let ghost tag = out@;
        assert(tag == match header {
            None => seq![0u8],
            Some(h) => seq![1u8] + h,
        });
        push_u64_le(&mut out, self.history_buffer.len() as u64);
        let ghost prefix = out@;
        let n = self.history_buffer.len();
        for i in 0..n
            invariant
                n == self.history_buffer@.len(),
                items == item_views(self.history_buffer@),
                out@ == prefix + frame_items(items.subrange(0, i as int)),
        {
            proof {
                assert(items.subrange(0, i + 1).drop_last() == items.subrange(0, i as int));
                assert(items[i as int] == (self.history_buffer@[i as int].0, self.history_buffer@[i as int].1@));
            }
            push_u64_le(&mut out, self.history_buffer[i].0 as u64);
            push_bytes(&mut out, &self.history_buffer[i].1);
            assert(out@ =~= prefix + frame_items(items.subrange(0, i + 1)));
        }
        assert(items.subrange(0, n as int) == items);
        assert(out@ =~= frame(header, items));
        let data = compress_fast(out.as_slice());
        self.history_buffer = Vec::new();
        assert(item_views(self.history_buffer@) =~= seq![]);
        IndexedBatchData { idx_beg, idx_end, data }
    }
}

} // verus!
