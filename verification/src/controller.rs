//! The physical surface: the authoritative pixel buffer of the
//! installation, section views into it, and the frame encoder.
//!
//! The buffer is flat and strip-major: strip `s` occupies indices
//! `s * LEDS_PER_STRIP .. (s + 1) * LEDS_PER_STRIP`.  Sections are copied
//! out for one effect invocation and written back; the encoder composites
//! every stored pixel onto black, applies the global brightness and
//! (optionally) gamma compression, and emits three bytes per pixel in
//! strip-major, pixel-major, R-G-B order.

use vstd::prelude::*;

use crate::color::{encode_ch, encode_channel, Rgba, CHANNEL_MAX};
use crate::section::Section;

verus! {

/// Number of physical strips.
pub const STRIPS: usize = 3;

/// Pixels per strip.
pub const LEDS_PER_STRIP: usize = 480;

/// Output settings of the surface.  `brightness` is a fixed-point factor on
/// the channel scale (`CHANNEL_MAX` stands for 1).
#[derive(Clone, Copy, Debug, PartialEq, Eq, Structural)]
pub struct ControllerConfig {
    pub brightness: u16,
    pub as_srgb: bool,
}

impl Default for ControllerConfig {
    /// Full brightness, linear output.
    fn default() -> (c: ControllerConfig)
        ensures
            c.brightness == CHANNEL_MAX,
            !c.as_srgb,
    {
        ControllerConfig { brightness: CHANNEL_MAX, as_srgb: false }
    }
}

/// Pixel `i` of the flat buffer is correctly encoded at bytes
/// `3 i .. 3 i + 3` of the frame.
pub open spec fn pixel_encoded(
    state: Seq<Rgba>,
    frame: Seq<u8>,
    i: int,
    brightness: int,
    as_srgb: bool,
) -> bool {
    &&& frame[3 * i] == encode_ch(state[i].red as int, state[i].alpha as int, brightness, as_srgb)
    &&& frame[3 * i + 1] == encode_ch(
        state[i].green as int,
        state[i].alpha as int,
        brightness,
        as_srgb,
    )
    &&& frame[3 * i + 2] == encode_ch(
        state[i].blue as int,
        state[i].alpha as int,
        brightness,
        as_srgb,
    )
}

/// The surface: owns the pixel state of every strip.
pub struct Controller {
    pub state: Vec<Rgba>,
    pub config: ControllerConfig,
}

impl Controller {
    pub open spec fn wf(self) -> bool {
        self.state@.len() == STRIPS * LEDS_PER_STRIP
    }

    /// The stored pixel `idx` of strip `strip_idx`.
    pub open spec fn pixel(self, strip_idx: int, idx: int) -> Rgba {
        self.state@[strip_idx * (LEDS_PER_STRIP as int) + idx]
    }

    /// A fresh surface, every pixel black.
    pub fn new(config: ControllerConfig) -> (c: Controller)
        ensures
            c.wf(),
            c.config == config,
            forall|i: int| 0 <= i < c.state@.len() ==> c.state@[i] == Rgba::black(),
    {
        let total = STRIPS * LEDS_PER_STRIP;
        let mut state: Vec<Rgba> = Vec::new();
        let mut k: usize = 0;
        while k < total
            invariant
                k <= total,
                state@.len() == k,
                forall|i: int| 0 <= i < k ==> state@[i] == Rgba::black(),
            decreases total - k,
        {
            state.push(Rgba::new(0, 0, 0, 0));
            k = k + 1;
        }
        Controller { state, config }
    }

    pub fn get_config(&self) -> (c: ControllerConfig)
        ensures
            c == self.config,
    {
        self.config
    }

    pub fn set_config(&mut self, config: ControllerConfig) -> (c: ControllerConfig)
        ensures
            final(self).config == config,
            final(self).state == old(self).state,
            c == config,
    {
        self.config = config;
        config
    }

    /// Read one stored pixel.
    pub fn get_pixel(&self, strip_idx: usize, idx: usize) -> (c: Rgba)
        requires
            self.wf(),
            strip_idx < STRIPS,
            idx < LEDS_PER_STRIP,
        ensures
            c == self.pixel(strip_idx as int, idx as int),
    {
        self.state[strip_idx * LEDS_PER_STRIP + idx]
    }

    /// A bounded, possibly reversed view of `length` pixels of one strip,
    /// starting at `start`: a copy the caller mutates and writes back.
    /// Bounds are the caller's obligation (the runner validates topology
    /// before resolving sections).
    pub fn section(&self, strip_idx: usize, start: usize, length: usize, reversed: bool) -> (s:
        Section)
        requires
            self.wf(),
            strip_idx < STRIPS,
            start + length <= LEDS_PER_STRIP,
        ensures
            s.spec_len() == length,
            s.spec_reversed() == reversed,
            forall|i: int|
                0 <= i < length ==> #[trigger] s.phys()[i] == self.pixel(
                    strip_idx as int,
                    start + i,
                ),
    {
        let base = strip_idx * LEDS_PER_STRIP + start;
        let mut pixels: Vec<Rgba> = Vec::new();
        let mut k: usize = 0;
        while k < length
            invariant
                k <= length,
                base == strip_idx * LEDS_PER_STRIP + start,
                strip_idx < STRIPS,
                start + length <= LEDS_PER_STRIP,
                self.wf(),
                pixels@.len() == k,
                forall|i: int|
                    0 <= i < k ==> #[trigger] pixels@[i] == self.pixel(strip_idx as int, start + i),
            decreases length - k,
        {
            pixels.push(self.state[base + k]);
            k = k + 1;
        }
        Section::new(pixels, reversed)
    }

    /// Write a section's pixels back into the strip they were taken from.
    pub fn write_section(&mut self, strip_idx: usize, start: usize, section: Section)
        requires
            old(self).wf(),
            strip_idx < STRIPS,
            start + section.spec_len() <= LEDS_PER_STRIP,
        ensures
            final(self).wf(),
            final(self).config == old(self).config,
            final(self).state@.len() == old(self).state@.len(),
            forall|s: int, i: int|
                0 <= s < STRIPS && 0 <= i < LEDS_PER_STRIP ==> #[trigger] final(self).pixel(s, i)
                    == if s == strip_idx && start <= i < start + section.spec_len() {
                    section.phys()[i - start]
                } else {
                    old(self).pixel(s, i)
                },
            forall|j: int|
                0 <= j < final(self).state@.len() ==> #[trigger] final(self).state@[j] == if
                strip_idx * (LEDS_PER_STRIP as int) + start <= j < strip_idx * (
                LEDS_PER_STRIP as int) + start + section.spec_len() {
                    section.phys()[j - (strip_idx * (LEDS_PER_STRIP as int) + start)]
                } else {
                    old(self).state@[j]
                },
    {
        let base = strip_idx * LEDS_PER_STRIP + start;
        let length = section.len();
        let pixels = section.into_pixels();
        let mut k: usize = 0;
        while k < length
            invariant
                k <= length,
                base == strip_idx * LEDS_PER_STRIP + start,
                strip_idx < STRIPS,
                start + length <= LEDS_PER_STRIP,
                length == pixels@.len(),
                self.wf(),
                self.config == old(self).config,
                forall|j: int|
                    0 <= j < self.state@.len() ==> #[trigger] self.state@[j] == if base <= j < base
                        + k {
                        pixels@[j - base]
                    } else {
                        old(self).state@[j]
                    },
            decreases length - k,
        {
            self.state.set(base + k, pixels[k]);
            k = k + 1;
        }
        proof {
            assert forall|s: int, i: int|
                0 <= s < STRIPS && 0 <= i < LEDS_PER_STRIP implies #[trigger] self.pixel(s, i)
                == if s == strip_idx && start <= i < start + length {
                pixels@[i - start]
            } else {
                old(self).pixel(s, i)
            } by {
                let j = s * (LEDS_PER_STRIP as int) + i;
                assert(0 <= j < STRIPS * (LEDS_PER_STRIP as int)) by (nonlinear_arith)
                    requires
                        0 <= s < STRIPS,
                        0 <= i < LEDS_PER_STRIP,
                        j == s * (LEDS_PER_STRIP as int) + i,
                ;
                if s == strip_idx {
                    assert(base <= j < base + length <==> start <= i < start + length);
                } else {
                    assert(!(base <= j < base + length)) by (nonlinear_arith)
                        requires
                            0 <= s < STRIPS,
                            0 <= i < LEDS_PER_STRIP,
                            s != strip_idx,
                            0 <= strip_idx < STRIPS,
                            base == strip_idx * (LEDS_PER_STRIP as int) + start,
                            start + length <= LEDS_PER_STRIP,
                            j == s * (LEDS_PER_STRIP as int) + i,
                    ;
                }
            }
        }
    }

    /// Encode the whole surface for the transport: per pixel, composite onto
    /// black, apply `brightness`, optionally gamma-compress, and quantize;
    /// three bytes per pixel, strip-major, pixel-major, R-G-B.
    pub fn encode_state(&self, brightness: u16, as_srgb: bool) -> (frame: Vec<u8>)
        requires
            self.wf(),
        ensures
            frame@.len() == 3 * STRIPS * LEDS_PER_STRIP,
            forall|i: int|
                0 <= i < STRIPS * LEDS_PER_STRIP ==> #[trigger] pixel_encoded(
                    self.state@,
                    frame@,
                    i,
                    brightness as int,
                    as_srgb,
                ),
    {
        let total = STRIPS * LEDS_PER_STRIP;
        let mut frame: Vec<u8> = Vec::new();
        let mut k: usize = 0;
        while k < total
            invariant
                k <= total,
                total == STRIPS * LEDS_PER_STRIP,
                self.wf(),
                frame@.len() == 3 * k,
                forall|i: int|
                    0 <= i < k ==> #[trigger] pixel_encoded(
                        self.state@,
                        frame@,
                        i,
                        brightness as int,
                        as_srgb,
                    ),
            decreases total - k,
        {
            let c = self.state[k];
            let ghost f0 = frame@;
            frame.push(encode_channel(c.red, c.alpha, brightness, as_srgb));
            frame.push(encode_channel(c.green, c.alpha, brightness, as_srgb));
            frame.push(encode_channel(c.blue, c.alpha, brightness, as_srgb));
            proof {
                assert(c == self.state@[k as int]);
                assert(pixel_encoded(self.state@, frame@, k as int, brightness as int, as_srgb));
                assert forall|i: int|
                    0 <= i < k implies #[trigger] pixel_encoded(
                    self.state@,
                    frame@,
                    i,
                    brightness as int,
                    as_srgb,
                ) by {
                    assert(pixel_encoded(self.state@, f0, i, brightness as int, as_srgb));
                    assert(frame@[3 * i] == f0[3 * i]);
                    assert(frame@[3 * i + 1] == f0[3 * i + 1]);
                    assert(frame@[3 * i + 2] == f0[3 * i + 2]);
                }
            }
            k = k + 1;
        }
        frame
    }
}

} // verus!
