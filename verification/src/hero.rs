//! The hero's sprite sheet and walking animation.

use vstd::prelude::*;

verus! {

/// The hero's sprite sheet image.
pub const HERO_PATH: &'static str = "textures/hero.png";

/// Width and height of a frame of the hero's sprite sheet, in pixels.
pub const HERO_FRAME_SIZE_PIXELS: u32 = 16;

/// Number of frame columns in the hero's sprite sheet.
pub const HERO_COLUMNS: u32 = 8;

/// Number of frame rows in the hero's sprite sheet.
pub const HERO_ROWS: u32 = 3;

/// Frames per second of the hero's walking animation.
pub const HERO_ANIMATION_FPS: u8 = 10;

/// Where the hero looks.
#[derive(Debug, Clone, Copy, PartialEq, Eq, Structural)]
pub enum HeroDirection {
    Back,
    Front,
    Left,
    Right,
}

/// Where the hero looks now.
#[derive(Debug, Clone, Copy, PartialEq, Eq, Structural)]
pub struct HeroFacing(pub HeroDirection);

/// The first and last frame of the walk towards `direction`.
pub open spec fn walk_frames(direction: HeroDirection) -> (usize, usize) {
    match direction {
        HeroDirection::Back => (0, 3),
        HeroDirection::Front => (4, 7),
        HeroDirection::Left => (8, 11),
        HeroDirection::Right => (12, 15),
    }
}

/// The frame of the hero standing still towards `direction`.
pub open spec fn idle_frame_of(direction: HeroDirection) -> usize {
    match direction {
        HeroDirection::Back => 1,
        HeroDirection::Front => 6,
        HeroDirection::Left => 9,
        HeroDirection::Right => 13,
    }
}

/// The frames the hero shows for `direction`, walking or standing still.
pub open spec fn frames_for(direction: HeroDirection, is_moving: bool) -> (usize, usize) {
    if is_moving {
        walk_frames(direction)
    } else {
        (idle_frame_of(direction), idle_frame_of(direction))
    }
}

/// The first and last frame of the walk towards `direction`.
pub fn walking_frames(direction: HeroDirection) -> (r: (usize, usize))
    ensures
        r == walk_frames(direction),
{
    match direction {
        HeroDirection::Back => (0, 3),
        HeroDirection::Front => (4, 7),
        HeroDirection::Left => (8, 11),
        HeroDirection::Right => (12, 15),
    }
}

/// The frame of the hero standing still towards `direction`.
pub fn idle_frame(direction: HeroDirection) -> (r: usize)
    ensures
        r == idle_frame_of(direction),
{
    match direction {
        HeroDirection::Back => 1,
        HeroDirection::Front => 6,
        HeroDirection::Left => 9,
        HeroDirection::Right => 13,
    }
}

/// The hero's animation: the frames it cycles through and its speed. The
/// frame timer lives beside it, with the caller.
pub struct HeroAnimation {
    first_sprite_index: usize,
    last_sprite_index: usize,
    fps: u8,
}

impl View for HeroAnimation {
    type V = (usize, usize, u8);

    /// The first frame, the last frame and the frames per second.
    closed spec fn view(&self) -> (usize, usize, u8) {
        (self.first_sprite_index, self.last_sprite_index, self.fps)
    }
}

impl HeroAnimation {
    /// The hero standing still towards `direction`.
    pub fn idle(direction: HeroDirection) -> (a: Self)
        ensures
            a@ == (idle_frame_of(direction), idle_frame_of(direction), HERO_ANIMATION_FPS),
    {
        let idle_index = idle_frame(direction);
        Self { first_sprite_index: idle_index, last_sprite_index: idle_index, fps: HERO_ANIMATION_FPS }
    }

    /// The first frame of the animation.
    pub fn first_sprite_index(&self) -> (i: usize)
        ensures
            i == self@.0,
    {
        self.first_sprite_index
    }

    /// The last frame of the animation.
    pub fn last_sprite_index(&self) -> (i: usize)
        ensures
            i == self@.1,
    {
        self.last_sprite_index
    }

    /// The frames per second of the animation.
    pub fn fps(&self) -> (f: u8)
        ensures
            f == self@.2,
    {
        self.fps
    }

    /// Whether the animation shows a single frame, so there is nothing to play.
    pub fn is_still(&self) -> (r: bool)
        ensures
            r == (self@.0 == self@.1),
    {
        self.first_sprite_index == self.last_sprite_index
    }

    /// The frame that follows `index` when the frame timer runs out: the next
    /// one, or back to the first after the last or from outside the animation.
    pub fn next_frame(&self, index: usize) -> (next: usize)
        ensures
            next == next_frame_of(self@.0, self@.1, index),
    {
        if index >= self.last_sprite_index || index < self.first_sprite_index {
            self.first_sprite_index
        } else {
            index + 1
        }
    }
}

/// The frame after `index` in the animation from `first` to `last`.
pub open spec fn next_frame_of(first: usize, last: usize, index: usize) -> usize {
    if index >= last || index < first {
        first
    } else {
        (index + 1) as usize
    }
}

/// Whether turning the hero towards `direction`, walking or not, changes the
/// frames of the animation `a` (first frame, last frame, frames per second).
pub open spec fn animation_changes(a: (usize, usize, u8), direction: HeroDirection, is_moving: bool) -> bool {
    (a.0, a.1) != frames_for(direction, is_moving)
}

/// The animation `a` after turning the hero towards `direction`.
pub open spec fn animation_after(a: (usize, usize, u8), direction: HeroDirection, is_moving: bool) -> (
    usize,
    usize,
    u8,
) {
    (frames_for(direction, is_moving).0, frames_for(direction, is_moving).1, a.2)
}

/// Turns the hero towards `direction`, walking or standing still. When the
/// frames to show change, the animation starts over from its first frame,
/// which the sprite (`atlas_index`, where it has an atlas) shows at once, and
/// the result is `true`: the caller then restarts the frame timer.
pub fn set_hero_animation(
    atlas_index: &mut Option<usize>,
    animation: &mut HeroAnimation,
    facing: &mut HeroFacing,
    direction: HeroDirection,
    is_moving: bool,
) -> (changed: bool)
    ensures
        *final(facing) == HeroFacing(direction),
        changed == animation_changes(old(animation)@, direction, is_moving),
        final(animation)@ == animation_after(old(animation)@, direction, is_moving),
        changed ==> *final(atlas_index) == match *old(atlas_index) {
            Some(_) => Some(frames_for(direction, is_moving).0),
            None => None::<usize>,
        },
        !changed ==> *final(atlas_index) == *old(atlas_index),
{
    facing.0 = direction;
    let (first_sprite_index, last_sprite_index) = if is_moving {
        walking_frames(direction)
    } else {
        let idle_index = idle_frame(direction);
        (idle_index, idle_index)
    };
    let changed = animation.first_sprite_index != first_sprite_index
        || animation.last_sprite_index != last_sprite_index;
    if changed {
        animation.first_sprite_index = first_sprite_index;
        animation.last_sprite_index = last_sprite_index;
        if let Some(index) = atlas_index {
            *index = first_sprite_index;
        }
    }
    changed
}

// ====== Laws of the hero animation =======

/// The frame of standing still towards a direction is one of the frames of
/// walking towards it, and every frame is a cell of the sprite sheet.
pub proof fn law_idle_frame_within_walk(direction: HeroDirection)
    ensures
        walk_frames(direction).0 <= idle_frame_of(direction) <= walk_frames(direction).1,
        walk_frames(direction).1 < HERO_COLUMNS * HERO_ROWS,
{
}

/// The animation never leaves its frames: from any frame, the next one lies
/// between the first and the last.
pub proof fn law_next_frame_within(first: usize, last: usize, index: usize)
    requires
        first <= last,
    ensures
        first <= next_frame_of(first, last, index) <= last,
{
}

/// The walk is a cycle: from the first frame, the frames follow one another
/// up to the last and then start over.
pub proof fn law_walk_cycles(first: usize, last: usize, k: usize)
    requires
        first <= k < last,
    ensures
        next_frame_of(first, last, k) == k + 1,
        next_frame_of(first, last, last) == first,
{
}

/// Turning the hero the same way twice changes nothing the second time: the
/// frames already match, so the animation is not restarted.
pub proof fn law_set_animation_settles(a: (usize, usize, u8), direction: HeroDirection, is_moving: bool)
    ensures
        !animation_changes(animation_after(a, direction, is_moving), direction, is_moving),
        animation_after(animation_after(a, direction, is_moving), direction, is_moving)
            == animation_after(a, direction, is_moving),
{
}

} // verus!
