//! Sprite-sheet frame bookkeeping: which cell of a sheet to draw, advanced
//! by accumulated frame time. The pixels live outside the library; only the
//! arithmetic of frame selection is here.

use vstd::prelude::*;

verus! {

/// One row of animation frames in a sheet.
#[derive(Clone, Copy, Debug, PartialEq, Eq, Structural)]
pub struct AnimationLane {
    pub number_of_frames: u32,
}

/// Animation state: accumulated time, frame rate and the current frame
/// within the current lane. A lane index of -1 means no lane is selected.
#[derive(Clone, Debug)]
pub struct AnimationInfo {
    pub is_animating: bool,
    pub acc_dt_ms: u32,
    pub fps: u32,
    pub frame_time_ms: u32,
    pub current_frame: u32,
    pub animation_lanes: Vec<AnimationLane>,
    pub current_animation_lane_index: isize,
}

impl AnimationInfo {
    /// Fresh animation state; the frame time is a whole number of
    /// milliseconds, zero when no rate is given.
    pub fn new(animating: bool, fps: u32) -> (info: AnimationInfo)
        ensures
            info.is_animating == animating,
            info.acc_dt_ms == 0,
            info.fps == fps,
            info.frame_time_ms == if fps > 0 {
                1000int / fps as int
            } else {
                0int
            },
            info.current_frame == 0,
            info.animation_lanes@.len() == 0,
            info.current_animation_lane_index == -1,
    {
        let frame_time_ms: u32 = if fps > 0 {
            1000 / fps
        } else {
            0
        };
        AnimationInfo {
            is_animating: animating,
            acc_dt_ms: 0,
            fps,
            frame_time_ms,
            current_frame: 0,
            animation_lanes: Vec::new(),
            current_animation_lane_index: -1,
        }
    }
}

/// Where frame stepping lands: spend the accumulated time in whole frame
/// times, advancing the frame and wrapping at the lane's frame count.
pub open spec fn spec_anim_step(acc: int, ft: int, frame: int, nframes: int) -> (int, int)
    decreases acc,
{
    if ft <= 0 || acc < 0 {
        (acc, frame)
    } else if acc < ft {
        (acc, frame)
    } else {
        spec_anim_step(
            acc - ft,
            ft,
            if frame + 1 >= nframes {
                0
            } else {
                frame + 1
            },
            nframes,
        )
    }
}

/// A sprite sheet's slicing state: the fixed cell size, the current cell
/// offset, the sheet extent and the animation that drives the offset.
#[derive(Clone, Debug)]
pub struct SpriteSheet {
    pub sprite_height: u32,
    pub sprite_width: u32,
    pub sprite_x_offset: i32,
    pub sprite_y_offset: i32,
    pub sprite_sheet_width: u32,
    pub sprite_sheet_height: u32,
    pub animation_info: AnimationInfo,
}

impl SpriteSheet {
    /// A sheet of the given extent sliced into cells of `w` by `h`, starting
    /// at the top-left cell.
    pub fn new(sprite_sheet_w: u32, sprite_sheet_h: u32, w: u32, h: u32, info: AnimationInfo) -> (s:
        SpriteSheet)
        ensures
            s.sprite_height == h,
            s.sprite_width == w,
            s.sprite_x_offset == 0,
            s.sprite_y_offset == 0,
            s.sprite_sheet_width == sprite_sheet_w,
            s.sprite_sheet_height == sprite_sheet_h,
            s.animation_info == info,
    {
        SpriteSheet {
            sprite_height: h,
            sprite_width: w,
            sprite_x_offset: 0,
            sprite_y_offset: 0,
            sprite_sheet_width: sprite_sheet_w,
            sprite_sheet_height: sprite_sheet_h,
            animation_info: info,
        }
    }

    /// Select an animation lane; an out-of-range index is ignored.
    pub fn set_animation_lane_index(&mut self, index: usize)
        requires
            index < old(self).animation_info.animation_lanes@.len() ==> (old(
                self,
            ).sprite_height as int) * (index as int) <= 0x7FFF_FFFF,
            old(self).animation_info.animation_lanes@.len() <= 0x7FFF_FFFF,
        ensures
            if index < old(self).animation_info.animation_lanes@.len() {
                &&& final(self).animation_info.current_animation_lane_index == index
                &&& final(self).sprite_y_offset == (old(self).sprite_height as int) * (
                index as int)
                &&& final(self).animation_info.is_animating == old(
                    self,
                ).animation_info.is_animating
                &&& final(self).animation_info.acc_dt_ms == old(self).animation_info.acc_dt_ms
                &&& final(self).animation_info.fps == old(self).animation_info.fps
                &&& final(self).animation_info.frame_time_ms == old(
                    self,
                ).animation_info.frame_time_ms
                &&& final(self).animation_info.current_frame == old(
                    self,
                ).animation_info.current_frame
                &&& final(self).animation_info.animation_lanes == old(
                    self,
                ).animation_info.animation_lanes
                &&& final(self).sprite_height == old(self).sprite_height
                &&& final(self).sprite_width == old(self).sprite_width
                &&& final(self).sprite_x_offset == old(self).sprite_x_offset
                &&& final(self).sprite_sheet_width == old(self).sprite_sheet_width
                &&& final(self).sprite_sheet_height == old(self).sprite_sheet_height
            } else {
                *final(self) == *old(self)
            },
    {
        if index < self.animation_info.animation_lanes.len() {
            self.animation_info.current_animation_lane_index = index as isize;
            proof {
                assert((self.sprite_height as int) * (index as int) >= 0) by (nonlinear_arith);
            }
            self.sprite_y_offset = ((self.sprite_height as u64 * index as u64) as u32) as i32;
            proof {
                assert(self.sprite_height as u64 * index as u64 == (self.sprite_height as int) * (
                index as int));
            }
        }
    }

    /// Advance the animation by `dt_ms` milliseconds: once the accumulated
    /// time covers whole frame times, the frame steps and wraps within the
    /// current lane, and the sheet's x offset follows the frame. Nothing
    /// moves while not animating or without a selected lane.
    pub fn animation_accumulate_dt(&mut self, dt_ms: u32)
        requires
            old(self).animation_info.acc_dt_ms <= 0x4000_0000,
            dt_ms <= 0x4000_0000,
            old(self).animation_info.current_frame <= 0x4000_0000,
            old(self).animation_info.is_animating && old(
                self,
            ).animation_info.current_animation_lane_index != -1 ==> {
                &&& old(self).animation_info.frame_time_ms > 0
                &&& 0 <= old(self).animation_info.current_animation_lane_index < old(
                    self,
                ).animation_info.animation_lanes@.len()
                &&& {
                    let n = old(self).animation_info.animation_lanes@[old(
                        self,
                    ).animation_info.current_animation_lane_index as int].number_of_frames;
                    n <= 0x4000_0000 && (old(self).sprite_width as int) * (n as int)
                        <= 0x7FFF_FFFF
                }
            },
        ensures
            !(old(self).animation_info.is_animating && old(
                self,
            ).animation_info.current_animation_lane_index != -1) ==> *final(self) == *old(self),
            (old(self).animation_info.is_animating && old(
                self,
            ).animation_info.current_animation_lane_index != -1) ==> {
                let acc0 = old(self).animation_info.acc_dt_ms + dt_ms;
                let ft = old(self).animation_info.frame_time_ms as int;
                let n = old(self).animation_info.animation_lanes@[old(
                    self,
                ).animation_info.current_animation_lane_index as int].number_of_frames as int;
                let stepped = spec_anim_step(
                    acc0 as int,
                    ft,
                    old(self).animation_info.current_frame as int,
                    n,
                );
                &&& final(self).animation_info.acc_dt_ms == stepped.0
                &&& final(self).animation_info.current_frame == stepped.1
                &&& final(self).sprite_x_offset == if acc0 >= ft {
                    (old(self).sprite_width as int) * stepped.1
                } else {
                    old(self).sprite_x_offset as int
                }
                &&& final(self).animation_info.is_animating == old(
                    self,
                ).animation_info.is_animating
                &&& final(self).animation_info.fps == old(self).animation_info.fps
                &&& final(self).animation_info.frame_time_ms == old(
                    self,
                ).animation_info.frame_time_ms
                &&& final(self).animation_info.animation_lanes == old(
                    self,
                ).animation_info.animation_lanes
                &&& final(self).animation_info.current_animation_lane_index == old(
                    self,
                ).animation_info.current_animation_lane_index
                &&& final(self).sprite_height == old(self).sprite_height
                &&& final(self).sprite_width == old(self).sprite_width
                &&& final(self).sprite_y_offset == old(self).sprite_y_offset
                &&& final(self).sprite_sheet_width == old(self).sprite_sheet_width
                &&& final(self).sprite_sheet_height == old(self).sprite_sheet_height
            },
    {
        if !self.animation_info.is_animating {
            return ;
        }
        if self.animation_info.current_animation_lane_index == -1 {
            return ;
        }

        self.animation_info.acc_dt_ms = self.animation_info.acc_dt_ms + dt_ms;

        if self.animation_info.acc_dt_ms < self.animation_info.frame_time_ms {
            return ;
        }

        let lane_index = self.animation_info.current_animation_lane_index as usize;
        let n_frames = self.animation_info.animation_lanes[lane_index].number_of_frames;
        let ft = self.animation_info.frame_time_ms;
        let ghost acc0 = self.animation_info.acc_dt_ms as int;
        let ghost frame0 = old(self).animation_info.current_frame as int;
        proof {
            assert(acc0 >= ft);
        }

        while self.animation_info.acc_dt_ms >= ft
            invariant
                ft == old(self).animation_info.frame_time_ms,
                self.animation_info.frame_time_ms == old(self).animation_info.frame_time_ms,
                ft > 0,
                n_frames <= 0x4000_0000,
                self.animation_info.current_frame <= 0x4000_0001,
                (self.animation_info.acc_dt_ms as int == acc0 && self.animation_info.current_frame
                    as int == frame0) || (self.animation_info.current_frame as int)
                    < n_frames as int || self.animation_info.current_frame == 0,
                spec_anim_step(acc0, ft as int, frame0, n_frames as int) == spec_anim_step(
                    self.animation_info.acc_dt_ms as int,
                    ft as int,
                    self.animation_info.current_frame as int,
                    n_frames as int,
                ),
                self.animation_info.is_animating == old(self).animation_info.is_animating,
                self.animation_info.fps == old(self).animation_info.fps,
                self.animation_info.animation_lanes == old(self).animation_info.animation_lanes,
                self.animation_info.current_animation_lane_index == old(
                    self,
                ).animation_info.current_animation_lane_index,
                self.sprite_height == old(self).sprite_height,
                self.sprite_width == old(self).sprite_width,
                self.sprite_x_offset == old(self).sprite_x_offset,
                self.sprite_y_offset == old(self).sprite_y_offset,
                self.sprite_sheet_width == old(self).sprite_sheet_width,
                self.sprite_sheet_height == old(self).sprite_sheet_height,
            decreases self.animation_info.acc_dt_ms,
        {
            self.animation_info.acc_dt_ms = self.animation_info.acc_dt_ms - ft;
            self.animation_info.current_frame = self.animation_info.current_frame + 1;
            if self.animation_info.current_frame >= n_frames {
                self.animation_info.current_frame = 0;
            }
        }
        proof {
            assert((self.sprite_width as int) * (self.animation_info.current_frame as int) >= 0)
                by (nonlinear_arith);
            assert((self.animation_info.current_frame as int) < n_frames as int
                || self.animation_info.current_frame == 0);
            if self.animation_info.current_frame > 0 {
                vstd::arithmetic::mul::lemma_mul_inequality(
                    self.animation_info.current_frame as int,
                    n_frames as int,
                    self.sprite_width as int,
                );
                assert((self.animation_info.current_frame as int) * (self.sprite_width as int) == (
                self.sprite_width as int) * (self.animation_info.current_frame as int))
                    by (nonlinear_arith);
                assert((n_frames as int) * (self.sprite_width as int) == (self.sprite_width as int)
                    * (n_frames as int)) by (nonlinear_arith);
            }
        }
        self.sprite_x_offset = ((self.sprite_width as u64
            * self.animation_info.current_frame as u64) as u32) as i32;
        proof {
            assert(self.sprite_width as u64 * self.animation_info.current_frame as u64 == (
            self.sprite_width as int) * (self.animation_info.current_frame as int));
        }
    }
}

} // verus!
