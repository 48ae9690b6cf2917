//! The frame asset: a flat stream of four-byte rectangle records.
use vstd::prelude::*;

verus! {

/// Size in bytes of one record of the frame asset.
pub const RECORD_SIZE: usize = 4;

/// One rectangle of a frame, in logical canvas units.
///
/// A stored rectangle always has a non-zero width and height; a record with a
/// zero width or height stands for "no rectangle" and decodes to `None`.
#[derive(Debug, Clone, Copy, PartialEq, Eq, Structural)]
pub struct WinCoords {
    pub x: u8,
    pub y: u8,
    pub w: u8,
    pub h: u8,
}

/// Errors found while loading the frame asset.
#[derive(Debug, Clone, Copy, PartialEq, Eq, Structural)]
pub enum AssetError {
    /// The asset's length is not a multiple of the record size.
    CorruptAsset,
    /// Some frame holds more rectangles than there are windows in the pool.
    AssetPoolMismatch,
}

impl WinCoords {
    /// A rectangle is well formed when neither side is zero.
    pub open spec fn wf(self) -> bool {
        self.w > 0 && self.h > 0
    }
}

/// Every present rectangle of the stream is well formed.
pub open spec fn all_wf(fs: Seq<Option<WinCoords>>) -> bool {
    forall|i: int| 0 <= i < fs.len() && #[trigger] fs[i] is Some ==> fs[i]->0.wf()
}

/// The record made of the four bytes `x, y, w, h`.
pub open spec fn record_of(x: u8, y: u8, w: u8, h: u8) -> Option<WinCoords> {
    if w == 0 || h == 0 {
        None
    } else {
        Some(WinCoords { x, y, w, h })
    }
}

/// The `i`-th record of the byte buffer `b`.
pub open spec fn record_at(b: Seq<u8>, i: int) -> Option<WinCoords> {
    record_of(b[4 * i], b[4 * i + 1], b[4 * i + 2], b[4 * i + 3])
}

/// The records that a byte buffer holds, one per four bytes.
pub open spec fn decoded(b: Seq<u8>) -> Seq<Option<WinCoords>> {
    Seq::new((b.len() / 4) as nat, |i: int| record_at(b, i))
}

/// The four bytes that stand for one record; an absent one is all zeroes.
pub open spec fn record_bytes(r: Option<WinCoords>) -> Seq<u8> {
    match r {
        Some(c) => seq![c.x, c.y, c.w, c.h],
        None => seq![0u8, 0u8, 0u8, 0u8],
    }
}

/// The byte buffer that stands for a stream of records.
pub open spec fn encoded(fs: Seq<Option<WinCoords>>) -> Seq<u8> {
    Seq::new(4 * fs.len(), |j: int| record_bytes(fs[j / 4])[j % 4])
}

/// Decodes the frame asset into its records.
///
/// The asset is refused with `CorruptAsset` when its length is not a multiple
/// of the record size, rather than dropping a partial trailing record.
pub fn decode_frames(buf: &[u8]) -> (r: Result<Vec<Option<WinCoords>>, AssetError>)
    ensures
        r is Err <==> buf@.len() % 4 != 0,
        r matches Err(e) ==> e == AssetError::CorruptAsset,
        r matches Ok(v) ==> v@ == decoded(buf@) && all_wf(v@),
{
    if buf.len() % RECORD_SIZE != 0 {
        return Err(AssetError::CorruptAsset);
    }
    let n: usize = buf.len() / RECORD_SIZE;
    let mut out: Vec<Option<WinCoords>> = Vec::with_capacity(n);
    let mut i: usize = 0;
    while i < n
        invariant
            n == buf@.len() / 4,
            4 * n == buf@.len(),
            buf@.len() <= usize::MAX,
            buf@.len() % 4 == 0,
            i <= n,
            out@ =~= decoded(buf@).subrange(0, i as int),
        decreases n - i,
    {
        let base: usize = 4 * i;
        let w: u8 = buf[base + 2];
        let h: u8 = buf[base + 3];
        let rec = if w == 0 || h == 0 {
            None
        } else {
            Some(WinCoords { x: buf[base], y: buf[base + 1], w, h })
        };
        out.push(rec);
        i = i + 1;
        assert(out@ =~= decoded(buf@).subrange(0, i as int));
    }
    proof {
        lemma_decoded_wf(buf@);
    }
    Ok(out)
}

/// Every record decoded from bytes is well formed.
pub proof fn lemma_decoded_wf(b: Seq<u8>)
    ensures
        all_wf(decoded(b)),
{
}

/// Encodes records into the byte layout of the frame asset.
pub fn encode_frames(frames: &[Option<WinCoords>]) -> (r: Vec<u8>)
    requires
        4 * frames@.len() <= usize::MAX,
    ensures
        r@ == encoded(frames@),
{
    let mut out: Vec<u8> = Vec::with_capacity(4 * frames.len());
    let mut i: usize = 0;
    while i < frames.len()
        invariant
            4 * frames@.len() <= usize::MAX,
            i <= frames@.len(),
            out@ =~= encoded(frames@.subrange(0, i as int)),
        decreases frames@.len() - i,
    {
        let bytes: [u8; 4] = match frames[i] {
            Some(c) => [c.x, c.y, c.w, c.h],
            None => [0u8, 0u8, 0u8, 0u8],
        };
        out.push(bytes[0]);
        out.push(bytes[1]);
        out.push(bytes[2]);
        out.push(bytes[3]);
        proof {
            let prev = frames@.subrange(0, i as int);
            let next = frames@.subrange(0, i + 1);
            assert forall|j: int| 0 <= j < 4 * next.len() implies #[trigger] out@[j] == encoded(next)[j] by {
                if j < 4 * i {
                    assert(j / 4 < i);
                    assert(next[j / 4] == prev[j / 4]);
                } else {
                    assert(j / 4 == i);
                }
            }
        }
        i = i + 1;
        assert(out@ =~= encoded(frames@.subrange(0, i as int)));
    }
    assert(frames@.subrange(0, frames@.len() as int) =~= frames@);
    out
}

/// Decoding the encoding of a stream of well-formed records gives the same
/// records back: none is lost, reordered, or turned from present to absent or
/// the other way round.
pub proof fn lemma_round_trip(fs: Seq<Option<WinCoords>>)
    requires
        all_wf(fs),
    ensures
        decoded(encoded(fs)) == fs,
{
    let b = encoded(fs);
    assert(b.len() / 4 == fs.len());
    assert forall|i: int| 0 <= i < fs.len() implies #[trigger] record_at(b, i) == fs[i] by {
        assert((4 * i) / 4 == i && (4 * i + 1) / 4 == i && (4 * i + 2) / 4 == i && (4 * i + 3) / 4 == i);
        assert((4 * i) % 4 == 0 && (4 * i + 1) % 4 == 1 && (4 * i + 2) % 4 == 2 && (4 * i + 3) % 4 == 3);
        if fs[i] is Some {
            assert(fs[i]->0.wf());
        }
    }
    assert(decoded(b) =~= fs);
}

/// Index of the first absent record at or after `c`, or the stream's length
/// when every record from `c` on is present.
pub open spec fn gap_from(fs: Seq<Option<WinCoords>>, c: int) -> int
    decreases fs.len() - c,
{
    if c < 0 || c >= fs.len() {
        fs.len() as int
    } else if fs[c] is None {
        c
    } else {
        gap_from(fs, c + 1)
    }
}

/// A whole frame starts at `c`: its run of rectangles is closed by an absent
/// record before the stream ends.
pub open spec fn has_frame(fs: Seq<Option<WinCoords>>, c: int) -> bool {
    gap_from(fs, c) < fs.len()
}

/// The rectangles of the frame that starts at `c`.
pub open spec fn frame_at(fs: Seq<Option<WinCoords>>, c: int) -> Seq<WinCoords> {
    fs.subrange(c, gap_from(fs, c)).map_values(|o: Option<WinCoords>| o->0)
}

/// Where the frame after the one at `c` starts.
pub open spec fn after_frame(fs: Seq<Option<WinCoords>>, c: int) -> int {
    gap_from(fs, c) + 1
}

pub proof fn lemma_gap_from_bounds(fs: Seq<Option<WinCoords>>, c: int)
    requires
        0 <= c <= fs.len(),
    ensures
        c <= gap_from(fs, c) <= fs.len(),
        gap_from(fs, c) < fs.len() ==> fs[gap_from(fs, c)] is None,
        forall|k: int| c <= k < gap_from(fs, c) ==> #[trigger] fs[k] is Some,
    decreases fs.len() - c,
{
    if c < fs.len() && fs[c] is Some {
        lemma_gap_from_bounds(fs, c + 1);
    }
}

/// Finds the end of the run of present records that starts at `c`.
pub fn find_gap(fs: &[Option<WinCoords>], c: usize) -> (r: usize)
    requires
        c <= fs@.len(),
    ensures
        r == gap_from(fs@, c as int),
{
    let mut j: usize = c;
    while j < fs.len() && fs[j].is_some()
        invariant
            c <= j <= fs@.len(),
            gap_from(fs@, c as int) == gap_from(fs@, j as int),
        decreases fs@.len() - j,
    {
        j = j + 1;
    }
    j
}

/// Number of present records that directly precede index `i`.
pub open spec fn run_before(fs: Seq<Option<WinCoords>>, i: int) -> nat
    decreases i,
{
    if i <= 0 || i > fs.len() {
        0
    } else if fs[i - 1] is Some {
        run_before(fs, i - 1) + 1
    } else {
        0
    }
}

/// No run of present records in the stream is longer than `n`.
pub open spec fn fits_pool(fs: Seq<Option<WinCoords>>, n: nat) -> bool {
    forall|i: int| 0 <= i <= fs.len() ==> #[trigger] run_before(fs, i) <= n
}

/// Loads the frame asset at startup: decodes it and makes sure that no frame
/// needs more windows than the pool holds, before any window exists.
pub fn init(buf: &[u8], pool_size: usize) -> (r: Result<Vec<Option<WinCoords>>, AssetError>)
    ensures
        buf@.len() % 4 != 0 ==> r == Err::<Vec<Option<WinCoords>>, AssetError>(
            AssetError::CorruptAsset,
        ),
        buf@.len() % 4 == 0 ==> (r is Ok <==> fits_pool(decoded(buf@), pool_size as nat)),
        buf@.len() % 4 == 0 && !fits_pool(decoded(buf@), pool_size as nat) ==> r
            == Err::<Vec<Option<WinCoords>>, AssetError>(AssetError::AssetPoolMismatch),
        r matches Ok(v) ==> v@ == decoded(buf@) && all_wf(v@),
{
    let frames = match decode_frames(buf) {
        Ok(v) => v,
        Err(e) => return Err(e),
    };
    let mut run: usize = 0;
    let mut i: usize = 0;
    while i < frames.len()
        invariant
            i <= frames@.len(),
            frames@ == decoded(buf@),
            buf@.len() % 4 == 0,
            run == run_before(frames@, i as int),
            forall|k: int| 0 <= k <= i ==> #[trigger] run_before(frames@, k) <= pool_size,
        decreases frames@.len() - i,
    {
        if frames[i].is_some() {
            if run == pool_size {
                assert(run_before(frames@, i + 1) > pool_size);
                assert(!fits_pool(decoded(buf@), pool_size as nat));
                return Err(AssetError::AssetPoolMismatch);
            }
            run = run + 1;
        } else {
            run = 0;
        }
        i = i + 1;
    }
    Ok(frames)
}

} // verus!
