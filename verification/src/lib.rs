//! # scampii
//!
//! An animated pixel-art shrimp for your terminal.
//!
//! Renders a 24x26 pixel sprite as a looping inline PNG animation via the
//! iTerm2 image protocol (OSC 1337), and as Kitty or Sixel graphics.
//! Everything here computes bytes; writing them to a terminal is left to
//! the caller.
//!
//! - [`color::parse_hex_color`]: Parse `"ff6600"` or `"#ff6600"` into `(u8, u8, u8)`.
//! - [`png`]: Export frames as PNG files or emoji-sized images.

use vstd::prelude::*;
use vstd::string::StringSliceAdditionalSpecFns;

pub mod bytes;
pub mod color;
pub mod error;
pub mod frame;
pub mod iterm;
pub mod kitty;
pub mod pixel;
pub mod png;
pub mod raster;
pub mod sixel;
pub mod theme;

pub use crate::color::parse_hex_color;
pub use crate::error::ScampiiError;
pub use crate::frame::{PackedFrame, FRAMES, FRAME_COUNT};
pub use crate::pixel::{unpack_pixel, Hue};
pub use crate::theme::Theme;

use crate::bytes::{push_all, push_decimal, spec_decimal};
use crate::png::{render_png, spec_frame_png};
use crate::raster::{base64_encode, spec_base64, MAX_SCALE};

verus! {

// ---------------------------------------------------------------------------
// Animation
// ---------------------------------------------------------------------------

/// The pixel scale of the frames at a display scale of `cell_scale`
/// character cells: `2 * cell_scale`, at most [`MAX_SCALE`].
pub open spec fn spec_pixel_scale(cell_scale: u8) -> u8 {
    if 2 * cell_scale > MAX_SCALE {
        MAX_SCALE
    } else {
        (2 * cell_scale) as u8
    }
}

/// The pre-built iTerm2 inline-image payload of animation frame `i` at a
/// display scale of `cell_scale` character cells: the frame's PNG at the
/// pixel scale [`spec_pixel_scale`], base64-encoded, in an OSC 1337
/// sequence that sizes it to `2 * cell_scale` cells wide and `cell_scale`
/// cells tall.
pub open spec fn spec_animation_payload(theme: Theme, cell_scale: u8, i: int) -> Seq<u8> {
    "\x1b]1337;File=inline=1;width=".spec_bytes() + spec_decimal((2 * cell_scale) as nat)
        + ";height=".spec_bytes() + spec_decimal(cell_scale as nat)
        + ";preserveAspectRatio=1:".spec_bytes() + spec_base64(
        spec_frame_png(FRAMES[i], theme, spec_pixel_scale(cell_scale)),
    ) + seq![0x07u8]
}

/// The frame that follows frame `i` in the loop.
pub open spec fn spec_next_frame(i: int) -> int {
    (i + 1) % (FRAME_COUNT as int)
}

/// Animated sprite: pre-renders all frames at construction, so drawing a
/// frame is a lookup.
///
/// [`Animation::draw`] appends the bytes of the current frame to a buffer
/// and moves on to the next frame.
pub struct Animation {
    /// Pre-built iTerm2 escape payloads for each frame (PNG + base64 + OSC 1337).
    frames: Vec<Vec<u8>>,
    frame_idx: usize,
    theme: Theme,
    cell_scale: u8,
}

impl Animation {
    /// Every payload is the one of its frame for the current theme and
    /// scale, and the frame index and scale are in range.
    #[verifier::type_invariant]
    spec fn well_formed(self) -> bool {
        &&& self.frames@.len() == FRAME_COUNT
        &&& forall|i: int|
            0 <= i < FRAME_COUNT ==> #[trigger] self.frames@[i]@ == spec_animation_payload(
                self.theme,
                self.cell_scale,
                i,
            )
        &&& self.frame_idx < FRAME_COUNT
        &&& 1 <= self.cell_scale
    }

    /// The index of the frame that is drawn next.
    pub closed spec fn spec_frame_index(self) -> int {
        self.frame_idx as int
    }

    /// The theme the frames are rendered with.
    pub closed spec fn spec_theme(self) -> Theme {
        self.theme
    }

    /// The display scale in character cells.
    pub closed spec fn spec_cell_scale(self) -> u8 {
        self.cell_scale
    }

    /// Build the payloads of all frames for a theme and cell scale.
    fn build_frames(theme: &Theme, cell_scale: u8) -> (frames: Vec<Vec<u8>>)
        requires
            1 <= cell_scale,
        ensures
            frames@.len() == FRAME_COUNT,
            forall|i: int|
                0 <= i < FRAME_COUNT ==> #[trigger] frames@[i]@ == spec_animation_payload(
                    *theme,
                    cell_scale,
                    i,
                ),
    {
        let w = 2 * (cell_scale as u16);
        let h = cell_scale as u16;
        let pixel_scale: u8 = if cell_scale > MAX_SCALE / 2 {
            MAX_SCALE
        } else {
            cell_scale * 2
        };
        let mut frames: Vec<Vec<u8>> = Vec::new();
        let mut i: usize = 0;
        while i < FRAME_COUNT
            invariant
                1 <= cell_scale,
                pixel_scale == spec_pixel_scale(cell_scale),
                w == 2 * cell_scale,
                h == cell_scale,
                i <= FRAME_COUNT,
                frames@.len() == i,
                forall|j: int|
                    0 <= j < i ==> #[trigger] frames@[j]@ == spec_animation_payload(
                        *theme,
                        cell_scale,
                        j,
                    ),
            decreases FRAME_COUNT - i,
        {
            let frame = FRAMES[i];
            let png_data = render_png(&frame, theme, pixel_scale);
            let mut payload: Vec<u8> = Vec::new();
            push_all(&mut payload, "\x1b]1337;File=inline=1;width=".as_bytes());
            push_decimal(&mut payload, w as usize);
            push_all(&mut payload, ";height=".as_bytes());
            push_decimal(&mut payload, h as usize);
            push_all(&mut payload, ";preserveAspectRatio=1:".as_bytes());
            base64_encode(png_data.as_slice(), &mut payload);
            payload.push(0x07);
            assert(payload@ =~= spec_animation_payload(*theme, cell_scale, i as int));
            frames.push(payload);
            i = i + 1;
        }
        frames
    }

    /// Create a new animation with the given theme, at scale 1, on frame 0.
    ///
    /// Pre-renders all frames as base64-encoded PNGs wrapped in the iTerm2
    /// inline image escape sequence.
    pub fn new(theme: Theme) -> (a: Self)
        ensures
            a.spec_theme() == theme,
            a.spec_cell_scale() == 1,
            a.spec_frame_index() == 0,
    {
        let frames = Self::build_frames(&theme, 1);
        Self { frames, frame_idx: 0, theme, cell_scale: 1 }
    }

    /// Set the display scale in character cells (0 counts as 1).
    ///
    /// At scale 1 the shrimp is 2 cells wide and 1 cell tall.
    /// At scale 4 it is 8 cells wide and 4 cells tall.
    /// Scales with terminal zoom just like text. The frames are rendered at
    /// pixel scale `2 * scale`, at most [`MAX_SCALE`].
    pub fn scale(self, scale: u8) -> (a: Self)
        ensures
            a.spec_theme() == self.spec_theme(),
            a.spec_cell_scale() == (if scale < 1 {
                1
            } else {
                scale
            }),
            a.spec_frame_index() == self.spec_frame_index(),
    {
        proof {
            use_type_invariant(&self);
        }
        let cell_scale = if scale < 1 {
            1
        } else {
            scale
        };
        let frames = Self::build_frames(&self.theme, cell_scale);
        Self { frames, frame_idx: self.frame_idx, theme: self.theme, cell_scale }
    }

    /// Render the current frame inline, by appending its pre-built payload
    /// to `out`, and advance the animation to the next frame.
    pub fn draw(&mut self, out: &mut Vec<u8>)
        ensures
            final(out)@ == old(out)@ + spec_animation_payload(
                old(self).spec_theme(),
                old(self).spec_cell_scale(),
                old(self).spec_frame_index(),
            ),
            final(self).spec_frame_index() == spec_next_frame(old(self).spec_frame_index()),
            final(self).spec_theme() == old(self).spec_theme(),
            final(self).spec_cell_scale() == old(self).spec_cell_scale(),
    {
        proof {
            use_type_invariant(&*self);
        }
        push_all(out, self.frames[self.frame_idx].as_slice());
        self.frame_idx = (self.frame_idx + 1) % FRAME_COUNT;
    }

    /// The pre-built payload of the current frame: the bytes that draw it.
    pub fn current_payload(&self) -> (p: &[u8])
        ensures
            p@ == spec_animation_payload(
                self.spec_theme(),
                self.spec_cell_scale(),
                self.spec_frame_index(),
            ),
    {
        proof {
            use_type_invariant(self);
        }
        self.frames[self.frame_idx].as_slice()
    }

    /// Move on to the next frame, as [`Animation::draw`] does once its
    /// payload is written.
    pub fn advance(&mut self)
        ensures
            final(self).spec_frame_index() == spec_next_frame(old(self).spec_frame_index()),
            final(self).spec_theme() == old(self).spec_theme(),
            final(self).spec_cell_scale() == old(self).spec_cell_scale(),
    {
        proof {
            use_type_invariant(&*self);
        }
        self.frame_idx = (self.frame_idx + 1) % FRAME_COUNT;
    }

    /// Current frame index (0..[`FRAME_COUNT`]).
    pub fn frame_index(&self) -> (i: usize)
        ensures
            i == self.spec_frame_index(),
            i < FRAME_COUNT,
    {
        proof {
            use_type_invariant(self);
        }
        self.frame_idx
    }

    /// Reset the animation to frame 0.
    pub fn reset(&mut self)
        ensures
            final(self).spec_frame_index() == 0,
            final(self).spec_theme() == old(self).spec_theme(),
            final(self).spec_cell_scale() == old(self).spec_cell_scale(),
    {
        proof {
            use_type_invariant(&*self);
        }
        self.frame_idx = 0;
    }

    /// The byte length of each frame's payload.
    pub fn payload_sizes(&self) -> (sizes: Vec<usize>)
        ensures
            sizes@.len() == FRAME_COUNT,
            forall|i: int|
                0 <= i < FRAME_COUNT ==> #[trigger] sizes@[i] == spec_animation_payload(
                    self.spec_theme(),
                    self.spec_cell_scale(),
                    i,
                ).len(),
    {
        proof {
            use_type_invariant(self);
        }
        let mut sizes: Vec<usize> = Vec::new();
        let mut i: usize = 0;
        while i < FRAME_COUNT
            invariant
                i <= FRAME_COUNT,
                sizes@.len() == i,
                self.frames@.len() == FRAME_COUNT,
                forall|j: int|
                    0 <= j < FRAME_COUNT ==> #[trigger] self.frames@[j]@ == spec_animation_payload(
                        self.theme,
                        self.cell_scale,
                        j,
                    ),
                forall|j: int|
                    0 <= j < i ==> #[trigger] sizes@[j] == spec_animation_payload(
                        self.theme,
                        self.cell_scale,
                        j,
                    ).len(),
            decreases FRAME_COUNT - i,
        {
            sizes.push(self.frames[i].len());
            i = i + 1;
        }
        sizes
    }
}

/// What the full-screen animation loop sees after drawing a frame.
#[derive(Debug, Clone, Copy, PartialEq, Eq, Structural)]
pub enum LoopEvent {
    /// A key was pressed.
    Key,
    /// The terminal was resized.
    Resize,
    /// Any other event, or none before the frame delay ran out.
    Other,
}

/// What the full-screen animation loop does next.
#[derive(Debug, Clone, Copy, PartialEq, Eq, Structural)]
pub enum LoopAction {
    /// Stop the animation.
    Quit,
    /// Clear the screen, then draw the next frame.
    ClearScreen,
    /// Draw the next frame.
    Continue,
}

/// The loop's decision: any key quits, a resize clears the screen, and
/// anything else goes on to the next frame.
pub fn loop_action(event: LoopEvent) -> (a: LoopAction)
    ensures
        a == match event {
            LoopEvent::Key => LoopAction::Quit,
            LoopEvent::Resize => LoopAction::ClearScreen,
            LoopEvent::Other => LoopAction::Continue,
        },
{
    match event {
        LoopEvent::Key => LoopAction::Quit,
        LoopEvent::Resize => LoopAction::ClearScreen,
        LoopEvent::Other => LoopAction::Continue,
    }
}

/// The frame reached from frame `i` after `n` draws (or advances).
pub open spec fn spec_frame_after(i: int, n: nat) -> int
    decreases n,
{
    if n == 0 {
        i
    } else {
        spec_next_frame(spec_frame_after(i, (n - 1) as nat))
    }
}

/// After `n` draws from frame `i` the animation is on frame
/// `(i + n) % FRAME_COUNT`: the index stays in range, counts the draws since
/// `new` or the last `reset` modulo `FRAME_COUNT`, and `FRAME_COUNT` draws
/// come back to the same frame.
pub proof fn lemma_animation_cycles(i: int, n: nat)
    requires
        0 <= i < FRAME_COUNT,
    ensures
        spec_frame_after(i, n) == (i + n) % (FRAME_COUNT as int),
        0 <= spec_frame_after(i, n) < FRAME_COUNT,
        spec_frame_after(i, FRAME_COUNT as nat) == i,
    decreases n,
{
    reveal_with_fuel(spec_frame_after, 4);
    if n > 0 {
        lemma_animation_cycles(i, (n - 1) as nat);
        vstd::arithmetic::div_mod::lemma_add_mod_noop(i + n - 1, 1, FRAME_COUNT as int);
        vstd::arithmetic::div_mod::lemma_mod_twice(i + n - 1, FRAME_COUNT as int);
    }
}

} // verus!
