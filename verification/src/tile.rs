//! Tiles and their 2bpp encoding.
//!
//! A tile is an 8x8 grid of intensity levels.  Its first index axis is the
//! horizontal offset inside the 8x8 pixel block and its second the
//! vertical one; the encoder walks the first axis as its row loop and the
//! second as its bit loop, and the extractor fills the grid to match.

use vstd::prelude::*;
use crate::palette::Intensity;

verus! {

/// The bit a level contributes to the first bit plane.
pub open spec fn plane0_bit(level: Intensity) -> u8 {
    match level {
        Intensity::Lightest => 0,
        Intensity::Light => 1,
        Intensity::Dark => 0,
        Intensity::Darkest => 1,
    }
}

/// The bit a level contributes to the second bit plane.
pub open spec fn plane1_bit(level: Intensity) -> u8 {
    match level {
        Intensity::Lightest => 0,
        Intensity::Light => 0,
        Intensity::Dark => 1,
        Intensity::Darkest => 1,
    }
}

/// One plane byte of one tile row, built from the row's first `k` cells:
/// cell `(j, k1)` of the grid `t` sets bit `k1` of the byte when its
/// level's plane bit is 1.  `plane` selects the bit plane, 0 or 1.
pub open spec fn row_plane_byte(t: Seq<Intensity>, j: int, plane: int, k: int) -> u8
    decreases k,
{
    if k <= 0 {
        0u8
    } else {
        let prev = row_plane_byte(t, j, plane, k - 1);
        let bit = if plane == 0 {
            plane0_bit(t[j * 8 + (k - 1)])
        } else {
            plane1_bit(t[j * 8 + (k - 1)])
        };
        if bit == 1 {
            prev | (1u8 << ((k - 1) as u8))
        } else {
            prev
        }
    }
}

/// The 16 encoded bytes of one tile: for each row `j` of the grid, the
/// full plane-0 byte then the full plane-1 byte.
pub open spec fn encode_spec(t: Seq<Intensity>) -> Seq<u8> {
    Seq::new(16, |b: int| row_plane_byte(t, b / 2, b % 2, 8))
}

/// One 8x8 tile of intensity levels.  Cell `(i, j)` — horizontal offset
/// `i`, vertical offset `j` — is held flat at index `i * 8 + j`.
pub struct SpritePixelData {
    data: Vec<Intensity>,
}

impl View for SpritePixelData {
    type V = Seq<Intensity>;

    closed spec fn view(&self) -> Seq<Intensity> {
        self.data@
    }
}

impl SpritePixelData {
    /// Well-formedness: the grid holds exactly 64 cells.
    pub open spec fn wf(&self) -> bool {
        self@.len() == 64
    }

    /// A fresh tile, every cell at the lightest level.
    pub fn init() -> (r: Self)
        ensures
            r.wf(),
            forall|n: int| 0 <= n < 64 ==> r@[n] == Intensity::Lightest,
    {
        let mut data: Vec<Intensity> = Vec::new();
        let mut n: usize = 0;
        while n < 64
            invariant
                n <= 64,
                data@.len() == n,
                forall|m: int| 0 <= m < n ==> data@[m] == Intensity::Lightest,
            decreases 64 - n,
        {
            data.push(Intensity::Lightest);
            n = n + 1;
        }
        SpritePixelData { data }
    }

    /// Reads the level of cell `(i, j)`.
    pub fn level(&self, i: usize, j: usize) -> (r: Intensity)
        requires
            self.wf(),
            i < 8,
            j < 8,
        ensures
            r == self@[i * 8 + j],
    {
        self.data[i * 8 + j]
    }

    /// Sets cell `(i, j)` to `level`.
    pub fn set_level(&mut self, i: usize, j: usize, level: Intensity)
        requires
            old(self).wf(),
            i < 8,
            j < 8,
        ensures
            final(self).wf(),
            final(self)@ == old(self)@.update((i * 8 + j) as int, level),
    {
        self.data.set(i * 8 + j, level);
    }

    /// Packs the tile into its 16 encoded bytes: two bit planes per grid
    /// row, low bit first within each byte.
    pub fn encode(&self) -> (r: Vec<u8>)
        requires
            self.wf(),
        ensures
            r@ == encode_spec(self@),
    {
        let mut out: Vec<u8> = Vec::new();
        let mut j: usize = 0;
        while j < 8
            invariant
                self.wf(),
                j <= 8,
                out@.len() == 2 * j,
                forall|b: int|
                    0 <= b < 2 * j ==> out@[b] == row_plane_byte(self@, b / 2, b % 2, 8),
            decreases 8 - j,
        {
            let mut b0: u8 = 0;
            let mut b1: u8 = 0;
            let mut k: usize = 0;
            while k < 8
                invariant
                    self.wf(),
                    j < 8,
                    k <= 8,
                    b0 == row_plane_byte(self@, j as int, 0, k as int),
                    b1 == row_plane_byte(self@, j as int, 1, k as int),
                decreases 8 - k,
            {
                let level = self.level(j, k);
                match level {
                    Intensity::Lightest => {},
                    Intensity::Light => {
                        b0 = b0 | (1u8 << (k as u8));
                    },
                    Intensity::Dark => {
                        b1 = b1 | (1u8 << (k as u8));
                    },
                    Intensity::Darkest => {
                        b0 = b0 | (1u8 << (k as u8));
                        b1 = b1 | (1u8 << (k as u8));
                    },
                }
                k = k + 1;
            }
            out.push(b0);
            out.push(b1);
            j = j + 1;
        }
        proof {
            assert(out@ =~= encode_spec(self@));
        }
        out
    }
}

/// The bytes of the first `n` tiles of `tiles`, each tile's 16 encoded
/// bytes in sequence.
pub open spec fn output_upto(tiles: Seq<Seq<Intensity>>, n: int) -> Seq<u8>
    decreases n,
{
    if n <= 0 {
        Seq::empty()
    } else {
        output_upto(tiles, n - 1) + encode_spec(tiles[n - 1])
    }
}

/// The bytes of a whole tile sequence: every tile's 16 encoded bytes,
/// concatenated in tile order.
pub open spec fn output_spec(tiles: Seq<Seq<Intensity>>) -> Seq<u8> {
    output_upto(tiles, tiles.len() as int)
}

/// The encoded bytes of `n` tiles are exactly `16 * n` bytes.
pub proof fn lemma_output_upto_len(tiles: Seq<Seq<Intensity>>, n: int)
    requires
        0 <= n <= tiles.len(),
    ensures
        output_upto(tiles, n).len() == 16 * n,
    decreases n,
{
    if n > 0 {
        lemma_output_upto_len(tiles, n - 1);
        assert(encode_spec(tiles[n - 1]).len() == 16);
    }
}

/// An ordered sequence of tiles; its order fixes the output byte order.
pub struct PixelData {
    sprites: Vec<SpritePixelData>,
}

impl View for PixelData {
    type V = Seq<Seq<Intensity>>;

    closed spec fn view(&self) -> Seq<Seq<Intensity>> {
        self.sprites@.map_values(|s: SpritePixelData| s@)
    }
}

impl PixelData {
    /// Well-formedness: every tile holds exactly 64 cells.
    pub open spec fn wf(&self) -> bool {
        forall|t: int| 0 <= t < self@.len() ==> (#[trigger] self@[t]).len() == 64
    }

    /// A fresh, empty tile sequence.
    pub fn init() -> (r: Self)
        ensures
            r.wf(),
            r@ == Seq::<Seq<Intensity>>::empty(),
    {
        let sprites: Vec<SpritePixelData> = Vec::new();
        let r = PixelData { sprites };
        proof {
            assert(r@ =~= Seq::<Seq<Intensity>>::empty());
        }
        r
    }

    /// The number of tiles held so far.
    pub fn len(&self) -> (r: usize)
        ensures
            r == self@.len(),
    {
        self.sprites.len()
    }

    /// Appends a tile at the end of the sequence.
    pub fn push(&mut self, sprite: SpritePixelData)
        requires
            old(self).wf(),
            sprite.wf(),
        ensures
            final(self).wf(),
            final(self)@ == old(self)@.push(sprite@),
    {
        self.sprites.push(sprite);
        proof {
            assert(self@ =~= old(self)@.push(sprite@));
        }
    }

    /// Encodes every tile in order and concatenates the results.
    pub fn output(&self) -> (r: Vec<u8>)
        requires
            self.wf(),
        ensures
            r@ == output_spec(self@),
            r@.len() == 16 * self@.len(),
    {
        let mut out: Vec<u8> = Vec::new();
        let n: usize = self.sprites.len();
        let mut t: usize = 0;
        while t < n
            invariant
                self.wf(),
                t <= n,
                n == self@.len(),
                out@ == output_upto(self@, t as int),
            decreases n - t,
        {
            proof {
                assert(self@[t as int] == self.sprites@[t as int]@);
            }
            let mut enc = self.sprites[t].encode();
            out.append(&mut enc);
            t = t + 1;
        }
        proof {
            lemma_output_upto_len(self@, self@.len() as int);
        }
        out
    }
}

} // verus!
