//! What is recorded about a finished animation beside its sprite sheet.

use vstd::prelude::*;
use crate::cgs::CompositeFrame;
use crate::imageops::Rect;

verus! {

/// A rectangle as it is recorded.
#[derive(Clone, Copy, Debug, PartialEq, Eq, Structural)]
pub struct RectJson {
    pub x: u32,
    pub y: u32,
    pub width: u32,
    pub height: u32,
}

/// The record of one animation: whose it is, the delay of each frame in
/// the order of the sheet, the frame rectangle, and the size of the sheet.
#[derive(Debug)]
pub struct AnimationJson {
    pub unit_id: u32,
    pub anim_name: String,
    pub frame_delays: Vec<u32>,
    pub frame_rect: RectJson,
    pub image_width: u32,
    pub image_height: u32,
}

impl AnimationJson {
    /// The record of the animation `anim_name` of unit `unit_id`, shown by
    /// `frames` on a sheet of the given size.
    pub fn from_frames(
        unit_id: u32,
        anim_name: String,
        frames: &[CompositeFrame],
        frame_rect: &Rect,
        spritesheet_width: u32,
        spritesheet_height: u32,
    ) -> (out: Self)
        ensures
            out.unit_id == unit_id,
            out.anim_name == anim_name,
            out.frame_delays@.len() == frames@.len(),
            forall|i: int| 0 <= i < frames@.len() ==> out.frame_delays@[i] == frames@[i].delay,
            out.frame_rect == (RectJson {
                x: frame_rect.x,
                y: frame_rect.y,
                width: frame_rect.width,
                height: frame_rect.height,
            }),
            out.image_width == spritesheet_width,
            out.image_height == spritesheet_height,
    {
        let mut frame_delays: Vec<u32> = Vec::new();
        let n = frames.len();
        let mut i: usize = 0;
        while i < n
            invariant
                n == frames@.len(),
                i <= n,
                frame_delays@.len() == i,
                forall|k: int| 0 <= k < i ==> frame_delays@[k] == frames@[k].delay,
            decreases n - i,
        {
            frame_delays.push(frames[i].delay);
            i += 1;
        }
        Self {
            unit_id,
            anim_name,
            frame_delays,
            frame_rect: RectJson {
                x: frame_rect.x,
                y: frame_rect.y,
                width: frame_rect.width,
                height: frame_rect.height,
            },
            image_width: spritesheet_width,
            image_height: spritesheet_height,
        }
    }
}

} // verus!
