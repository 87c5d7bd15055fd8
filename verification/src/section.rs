//! Bounded, possibly reversed windows over a run of pixels.
//!
//! A `Section` is the unit handed to an effect for one tick: it holds the
//! pixels of one segment in physical order together with the orientation
//! flag.  All indexed operations speak the *logical* index space: logical
//! index `i` addresses physical index `i` when the section is forward, and
//! physical index `len - 1 - i` when it is reversed.  Positions between two
//! pixels are written with sub-pixel precision: a `SubPixel` position is
//! `whole + frac / SUBPIXEL_DEN`.

use vstd::prelude::*;

use crate::color::{mix_rgba, Rgba};

verus! {

/// Denominator of the fractional part of a sub-pixel position.
pub const SUBPIXEL_DEN: u16 = 256;

/// A position with sub-pixel precision: `whole + frac / SUBPIXEL_DEN`.
#[derive(Clone, Copy, Debug, PartialEq, Eq, Structural)]
pub struct SubPixel {
    pub whole: usize,
    /// Fractional part, in units of `1 / SUBPIXEL_DEN`.
    pub frac: u8,
}

impl SubPixel {
    /// The position measured in whole sub-pixel units.
    pub open spec fn units(self) -> int {
        self.whole * (SUBPIXEL_DEN as int) + self.frac
    }

    pub fn at(whole: usize) -> (p: SubPixel)
        ensures
            p == (SubPixel { whole, frac: 0u8 }),
    {
        SubPixel { whole, frac: 0 }
    }
}

pub struct Section {
    pub pixels: Vec<Rgba>,
    pub reversed: bool,
}

impl Section {
    /// The physical index addressed by logical index `i`.
    pub open spec fn phys_index(&self, i: int) -> int {
        if self.reversed {
            self.pixels@.len() - 1 - i
        } else {
            i
        }
    }

    /// The pixels in logical order.
    pub open spec fn logical(&self) -> Seq<Rgba> {
        Seq::new(self.pixels@.len(), |i: int| self.pixels@[self.phys_index(i)])
    }

    pub open spec fn spec_len(&self) -> nat {
        self.pixels@.len()
    }

    pub open spec fn spec_reversed(&self) -> bool {
        self.reversed
    }

    /// The pixels in physical order.
    pub open spec fn phys(&self) -> Seq<Rgba> {
        self.pixels@
    }

    pub fn new(pixels: Vec<Rgba>, reversed: bool) -> (s: Section)
        ensures
            s.phys() == pixels@,
            s.spec_reversed() == reversed,
    {
        Section { pixels, reversed }
    }

    pub fn len(&self) -> (n: usize)
        ensures
            n == self.spec_len(),
    {
        self.pixels.len()
    }

    pub fn is_reversed(&self) -> (r: bool)
        ensures
            r == self.spec_reversed(),
    {
        self.reversed
    }

    /// Consume the section, handing the pixels back in physical order.
    pub fn into_pixels(self) -> (v: Vec<Rgba>)
        ensures
            v@ == self.phys(),
    {
        self.pixels
    }

    /// Read the pixel at logical index `i`.
    pub fn get(&self, i: usize) -> (c: Rgba)
        requires
            i < self.spec_len(),
        ensures
            c == self.logical()[i as int],
    {
        if self.reversed {
            self.pixels[self.pixels.len() - 1 - i]
        } else {
            self.pixels[i]
        }
    }

    /// Write the pixel at logical index `i`.
    pub fn set(&mut self, i: usize, c: Rgba)
        requires
            i < old(self).spec_len(),
        ensures
            final(self).logical() =~= old(self).logical().update(i as int, c),
            final(self).spec_len() == old(self).spec_len(),
            final(self).spec_reversed() == old(self).spec_reversed(),
    {
        let p: usize = if self.reversed {
            self.pixels.len() - 1 - i
        } else {
            i
        };
        self.pixels.set(p, c);
        proof {
            let want = old(self).logical().update(i as int, c);
            assert forall|j: int| 0 <= j < self.logical().len() implies self.logical()[j]
                == want[j] by {
                assert(self.phys_index(j) == old(self).phys_index(j));
            }
        }
    }

    /// Set every pixel to `c`.
    pub fn fill(&mut self, c: Rgba)
        ensures
            final(self).logical() =~= Seq::new(old(self).spec_len(), |i: int| c),
            final(self).spec_len() == old(self).spec_len(),
            final(self).spec_reversed() == old(self).spec_reversed(),
    {
        let n = self.pixels.len();
        let mut k: usize = 0;
        while k < n
            invariant
                n == self.pixels@.len(),
                self.reversed == old(self).reversed,
                k <= n,
                forall|j: int| 0 <= j < k ==> self.pixels@[j] == c,
            decreases n - k,
        {
            self.pixels.set(k, c);
            k = k + 1;
        }
    }

    /// A copy of the logical subrange `[start, end)`, itself forward-logical:
    /// index `0` of the result is logical index `start` of `self`.
    pub fn range(&self, start: usize, end: usize) -> (s: Section)
        requires
            start <= end <= self.spec_len(),
        ensures
            s.logical() =~= self.logical().subrange(start as int, end as int),
            s.spec_reversed() == self.spec_reversed(),
            s.spec_len() == end - start,
    {
        let n = self.pixels.len();
        let (pstart, pend): (usize, usize) = if self.reversed {
            (n - end, n - start)
        } else {
            (start, end)
        };
        let mut pixels: Vec<Rgba> = Vec::new();
        let mut k: usize = pstart;
        while k < pend
            invariant
                pstart <= k <= pend <= n,
                n == self.spec_len(),
                pixels@ =~= self.phys().subrange(pstart as int, k as int),
            decreases pend - k,
        {
            pixels.push(self.pixels[k]);
            k = k + 1;
        }
        let s = Section { pixels, reversed: self.reversed };
        proof {
            let want = self.logical().subrange(start as int, end as int);
            assert forall|j: int| 0 <= j < s.logical().len() implies s.logical()[j] == want[j] by {
                assert(s.phys()[s.phys_index(j)] == self.phys()[pstart + s.phys_index(j)]);
                assert(pstart + s.phys_index(j) == self.phys_index(start + j));
            }
        }
        s
    }
}

/// Where an anti-aliased write at `whole + frac / SUBPIXEL_DEN` lands: the
/// two neighbouring logical indices, both clamped to `[0, len - 1]`.
pub open spec fn aa_lo(len: int, whole: int) -> int {
    if whole < len - 1 {
        whole
    } else {
        len - 1
    }
}

pub open spec fn aa_hi(len: int, whole: int, frac: int) -> int {
    if frac == 0 {
        aa_lo(len, whole)
    } else if whole + 1 < len - 1 {
        whole + 1
    } else {
        len - 1
    }
}

/// The anti-aliased write rule on a logical pixel sequence: an integral
/// position overwrites its pixel exactly; a fractional position blends the
/// two neighbours toward `c`, each by its distance from the position.
pub open spec fn set_aa_spec(s: Seq<Rgba>, whole: int, frac: int, c: Rgba) -> Seq<Rgba> {
    let lo = aa_lo(s.len() as int, whole);
    let hi = aa_hi(s.len() as int, whole, frac);
    if lo == hi {
        s.update(lo, c)
    } else {
        s.update(lo, mix_rgba(s[lo], c, SUBPIXEL_DEN as int - frac, SUBPIXEL_DEN as int)).update(
            hi,
            mix_rgba(s[hi], c, frac, SUBPIXEL_DEN as int),
        )
    }
}

/// The first whole pixel at or after a sub-pixel position, clamped to `len`.
pub open spec fn aa_ceil(len: int, pos: SubPixel) -> int {
    let c = if pos.frac == 0 {
        pos.whole as int
    } else {
        pos.whole + 1
    };
    if c < len {
        c
    } else {
        len
    }
}

/// The last whole pixel at or before a sub-pixel position, clamped to `len`.
pub open spec fn aa_floor(len: int, pos: SubPixel) -> int {
    if pos.whole < len {
        pos.whole as int
    } else {
        len
    }
}

/// The anti-aliased range write: both ends are written anti-aliased, and
/// every whole pixel strictly between them is set to the colour outright.
pub open spec fn set_aa_range_spec(s: Seq<Rgba>, start: SubPixel, end: SubPixel, c: Rgba) -> Seq<
    Rgba,
> {
    let ends = set_aa_spec(
        set_aa_spec(s, start.whole as int, start.frac as int, c),
        end.whole as int,
        end.frac as int,
        c,
    );
    let lo = aa_ceil(s.len() as int, start);
    let hi = aa_floor(s.len() as int, end);
    Seq::new(
        ends.len(),
        |i: int|
            if lo <= i < hi {
                c
            } else {
                ends[i]
            },
    )
}

impl Section {
    /// Anti-aliased write at a sub-pixel position.
    pub fn set_aa(&mut self, pos: SubPixel, c: &Rgba)
        requires
            old(self).spec_len() > 0,
        ensures
            final(self).logical() =~= set_aa_spec(
                old(self).logical(),
                pos.whole as int,
                pos.frac as int,
                *c,
            ),
            final(self).spec_len() == old(self).spec_len(),
            final(self).spec_reversed() == old(self).spec_reversed(),
    {
        let last = self.len() - 1;
        let lo: usize = if pos.whole < last {
            pos.whole
        } else {
            last
        };
        let hi: usize = if pos.frac == 0 {
            lo
        } else if pos.whole < last && pos.whole + 1 < last {
            pos.whole + 1
        } else {
            last
        };
        if lo == hi {
            self.set(lo, *c);
        } else {
            let blended_lo = self.get(lo).mix(c, SUBPIXEL_DEN - (pos.frac as u16), SUBPIXEL_DEN);
            let blended_hi = self.get(hi).mix(c, pos.frac as u16, SUBPIXEL_DEN);
            self.set(lo, blended_lo);
            self.set(hi, blended_hi);
        }
    }

    /// Anti-aliased write of a whole sub-pixel range: soft ends, solid
    /// middle.  Every continuously moving bar of light is drawn this way.
    #[verifier::loop_isolation(false)]
    pub fn set_aa_range(&mut self, start: SubPixel, end: SubPixel, c: &Rgba)
        requires
            old(self).spec_len() > 0,
        ensures
            final(self).logical() =~= set_aa_range_spec(old(self).logical(), start, end, *c),
            final(self).spec_len() == old(self).spec_len(),
            final(self).spec_reversed() == old(self).spec_reversed(),
    {
        let len = self.len();
        self.set_aa(start, c);
        self.set_aa(end, c);
        let ghost ends = self.logical();
        let lo: usize = if start.frac == 0 {
            if start.whole < len {
                start.whole
            } else {
                len
            }
        } else {
            if start.whole < len {
                start.whole + 1
            } else {
                len
            }
        };
        let hi: usize = if end.whole < len {
            end.whole
        } else {
            len
        };
        let mut k: usize = lo;
        if lo < hi {
            while k < hi
                invariant
                    lo <= k <= hi,
                    self.spec_len() == len,
                    self.spec_reversed() == old(self).spec_reversed(),
                    forall|i: int|
                        0 <= i < len ==> self.logical()[i] == if lo <= i < k {
                            *c
                        } else {
                            ends[i]
                        },
                decreases hi - k,
            {
                self.set(k, *c);
                k = k + 1;
            }
        }
        proof {
            assert(lo == aa_ceil(len as int, start));
            assert(hi == aa_floor(len as int, end));
        }
    }
}

} // verus!
