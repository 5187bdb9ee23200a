//! The screen director: which scene is drawn, and how each scene moves on.

use crate::adc::{get_active_channel, read_adc_value, AdcChanCfg};
use crate::frame::{FrameBuffer, Point};
use crate::screen::{SCREEN_HEIGHT, SCREEN_WIDTH};
use crate::shared::{SharedState, SharedView};
use crate::sprite::{
    blit_pixel, draw_sheet_frame_fade_dither, draw_sheet_frame_flash, draw_sheet_frame_masked,
    draw_sheet_frame_masked_crt, fade_shade, flash_shade, frame_count, frame_size_spec,
    glitch_shade, sheet_holds, Shade,
};
use crate::volume_indicator::{indicator_pixel, IconSet, VolumeIndicator};
use vstd::prelude::*;

verus! {

/// The state of the screen.
#[allow(non_camel_case_types)]
#[derive(Clone, Copy, Debug, PartialEq, Eq, Structural)]
pub enum ScreenState {
    INTRO,
    STANDBY,
    ACTIVE,
    OUTRO,
    OFF,
}

impl ScreenState {
    /// The state that a stored byte stands for; a byte that stands for none
    /// reads as `OFF`.
    pub open spec fn from_u8_spec(raw: u8) -> ScreenState {
        if raw == 0 {
            ScreenState::INTRO
        } else if raw == 1 {
            ScreenState::STANDBY
        } else if raw == 2 {
            ScreenState::ACTIVE
        } else if raw == 3 {
            ScreenState::OUTRO
        } else {
            ScreenState::OFF
        }
    }

    /// The byte that stands for a state.
    pub open spec fn to_u8_spec(self) -> u8 {
        match self {
            ScreenState::INTRO => 0,
            ScreenState::STANDBY => 1,
            ScreenState::ACTIVE => 2,
            ScreenState::OUTRO => 3,
            ScreenState::OFF => 4,
        }
    }

    /// The state that a stored byte stands for.
    pub fn from_u8(raw: u8) -> (s: ScreenState)
        ensures
            s == Self::from_u8_spec(raw),
    {
        match raw {
            0 => ScreenState::INTRO,
            1 => ScreenState::STANDBY,
            2 => ScreenState::ACTIVE,
            3 => ScreenState::OUTRO,
            _ => ScreenState::OFF,
        }
    }

    /// The byte that stands for a state.
    pub fn to_u8(self) -> (raw: u8)
        ensures
            raw == self.to_u8_spec(),
            Self::from_u8_spec(raw) == self,
    {
        match self {
            ScreenState::INTRO => 0,
            ScreenState::STANDBY => 1,
            ScreenState::ACTIVE => 2,
            ScreenState::OUTRO => 3,
            ScreenState::OFF => 4,
        }
    }
}

/// The state of the screen as the shared state holds it.
pub fn get_screen_state(shared: &SharedState) -> (s: ScreenState)
    ensures
        s == shared@.screen,
{
    shared.screen_state()
}

/// The time between two frames, in milliseconds.
pub const FRAME_DELAY: u64 = 140;

/// Width and height of a frame of the walking sprite.
pub const SPIDER_SHEET_W: u32 = 104;

/// Height of a frame of the walking sprite.
pub const SPIDER_SHEET_H: u32 = 64;

/// Width and height of a frame of the close-up sprite.
pub const SPIDER_CLOSE_SHEET_W: u32 = 122;

/// Height of a frame of the close-up sprite.
pub const SPIDER_CLOSE_SHEET_H: u32 = 64;

/// Width and height of a frame of the background particle.
pub const COBWEB_W: u32 = 40;

/// Height of a frame of the background particle.
pub const COBWEB_H: u32 = 40;

/// The number of background particles.
pub const COBWEB_COUNT: usize = 4;

/// The number of steps of the halo's flash.
pub const HALO_STEPS: u8 = 3;

/// The largest width and height of a screen that the background takes, so
/// that every position it computes fits the machine's 32-bit coordinates.
pub const MAX_SCREEN_SIDE: i32 = 0x3FFF_FFFF;

/// How far from the origin a particle may be, so that it can still move.
pub const POSITION_LIMIT: i32 = 0x7FFF_0000;

/// How far from the origin the centre of a halo may be.
pub const HALO_ORIGIN_LIMIT: i32 = 0x7FFE_0000;

/// Whether a sheet holds `frame_total` frames of `w` by `h` pixels, and at
/// least one.
pub open spec fn sheet_ok(sprite: Seq<u8>, w: u32, h: u32, frame_total: usize) -> bool {
    &&& w > 0
    &&& h > 0
    &&& frame_total > 0
    &&& forall|idx: int| 0 <= idx < frame_total ==> sheet_holds(sprite, w as int, h as int, idx)
}

/// A background particle.
#[derive(Clone, Copy, Debug)]
pub struct Cobweb {
    pub pos: Point,
    pub vel: Point,
    /// The frame of the sheet that is drawn next.
    pub frame: usize,
    /// Set when the particle was put back to the top; such a particle moves
    /// only once per throttle window.
    pub is_respawned: bool,
}

/// What the background is doing.
#[derive(Clone, Copy, Debug)]
pub enum BackgroundMode {
    /// Nothing is drawn.
    Inactive,
    /// The particles stand round a centre and flash.
    IntroHalo { step: u8 },
    /// The particles fall.
    Normal,
}

/// The next state of the pseudo-random generator.
pub open spec fn lcg_next(s: u32) -> u32 {
    s.wrapping_mul(1_664_525).wrapping_add(1_013_904_223)
}

/// The state of the generator after `n` draws.
pub open spec fn lcg_nth(s: u32, n: nat) -> u32
    decreases n,
{
    if n == 0 {
        s
    } else {
        lcg_next(lcg_nth(s, (n - 1) as nat))
    }
}

/// The falling speed that a random number gives: 2 to 5.
pub open spec fn fall_speed(r: u32) -> int {
    2 + (r % 4)
}

/// The sideways drift that a random number gives: -2, 0 or 2.
pub open spec fn drift(r: u32) -> int {
    if r % 3 == 0 {
        -2
    } else if r % 3 == 1 {
        0
    } else {
        2
    }
}

/// The left edge of a particle in lane `lane` of four.
pub open spec fn lane_x(lane: int, screen_width: int, sprite_w: int) -> int {
    lane * (screen_width / 4) + (screen_width / 4) / 2 - sprite_w / 2
}

/// A particle put back to the top: in a random lane, up to a screen and a
/// sprite above the top edge, with a new speed, drift and frame. Takes five
/// numbers of the generator.
pub open spec fn respawned_web(
    rng: u32,
    screen_width: int,
    screen_height: int,
    frame_total: int,
) -> Cobweb {
    let r_lane = lcg_next(rng);
    let r_y = lcg_next(r_lane);
    let r_speed = lcg_next(r_y);
    let r_drift = lcg_next(r_speed);
    let r_frame = lcg_next(r_drift);
    Cobweb {
        pos: Point {
            x: lane_x((r_lane % 4) as int, screen_width, COBWEB_W as int) as i32,
            y: (-(r_y % ((screen_height + COBWEB_H) as u32))) as i32,
        },
        vel: Point { x: drift(r_drift) as i32, y: fall_speed(r_speed) as i32 },
        frame: ((r_frame as int) % frame_total) as usize,
        is_respawned: true,
    }
}

/// A particle of the halo let go: it keeps its place and gets a speed and a
/// drift. Takes two numbers of the generator.
pub open spec fn released_web(web: Cobweb, rng: u32) -> Cobweb {
    let r_speed = lcg_next(rng);
    let r_drift = lcg_next(r_speed);
    Cobweb { vel: Point { x: drift(r_drift) as i32, y: fall_speed(r_speed) as i32 }, ..web }
}

/// A falling particle one frame on.
pub open spec fn moved_web(web: Cobweb, frame_total: int) -> Cobweb {
    Cobweb {
        frame: ((web.frame + 1) % frame_total) as usize,
        pos: Point { x: (web.pos.x + web.vel.x) as i32, y: (web.pos.y + web.vel.y) as i32 },
        ..web
    }
}

/// Whether a particle has left the screen at the bottom or at a side.
pub open spec fn web_is_out(web: Cobweb, screen_width: int, screen_height: int) -> bool {
    web.pos.y > screen_height + COBWEB_H || web.pos.x > screen_width + COBWEB_W || web.pos.x < -(
    COBWEB_W as int)
}

/// Whether a particle rests in this frame: it was put back to the top and the
/// throttle window has not elapsed.
pub open spec fn web_rests(web: Cobweb, frame_counter: u8) -> bool {
    frame_counter > 0 && web.is_respawned
}

/// The part of the background that changes from frame to frame.
pub struct BackgroundMotion {
    pub mode: BackgroundMode,
    pub cobwebs: Seq<Cobweb>,
    pub rng_state: u32,
    pub frame_counter: u8,
}

/// The four positions of the halo, relative to its centre.
pub open spec fn halo_offset(i: int) -> Point {
    if i == 0 {
        Point { x: -90i32, y: -15i32 }
    } else if i == 1 {
        Point { x: 90i32, y: -15i32 }
    } else if i == 2 {
        Point { x: -60i32, y: 15i32 }
    } else {
        Point { x: 60i32, y: 15i32 }
    }
}

/// The animated background of falling particles.
pub struct Background<'a> {
    pub sprite: &'a [u8],
    pub sprite_w: u32,
    pub sprite_h: u32,
    pub frame_total: usize,
    pub mode: BackgroundMode,
    pub screen_width: i32,
    pub screen_height: i32,
    pub cobwebs: [Cobweb; 4],
    pub rng_state: u32,
    /// The length of the throttle window, in frames.
    pub frame_skip: u8,
    pub frame_counter: u8,
}

/// Whether a particle can be drawn and moved.
pub open spec fn cobweb_ok(web: Cobweb, frame_total: usize, drawn: bool) -> bool {
    &&& -POSITION_LIMIT <= web.pos.x <= POSITION_LIMIT
    &&& -POSITION_LIMIT <= web.pos.y <= POSITION_LIMIT
    &&& -2 <= web.vel.x <= 2
    &&& 0 <= web.vel.y <= 5
    &&& drawn ==> web.frame < frame_total
}

impl<'a> Background<'a> {
    /// Whether the background is in order: its sheet holds the frames it
    /// counts, the screen and the throttle are sound, and every particle can
    /// be drawn and moved.
    pub open spec fn wf(&self) -> bool {
        &&& self.sprite_w == COBWEB_W
        &&& self.sprite_h == COBWEB_H
        &&& sheet_ok(self.sprite@, self.sprite_w, self.sprite_h, self.frame_total)
        &&& 0 < self.screen_width <= MAX_SCREEN_SIDE
        &&& 0 < self.screen_height <= MAX_SCREEN_SIDE
        &&& 0 < self.frame_skip
        &&& self.frame_counter < self.frame_skip
        &&& forall|i: int|
            0 <= i < 4 ==> cobweb_ok(
                #[trigger] self.cobwebs[i],
                self.frame_total,
                !(self.mode is Inactive),
            )
    }

    /// The particle of lane `i` at the start: in the middle of its lane,
    /// `i` sprite heights above the screen.
    pub open spec fn initial_web(i: int, screen_width: int) -> Cobweb {
        Cobweb {
            pos: Point {
                x: lane_x(i, screen_width, COBWEB_W as int) as i32,
                y: (-(COBWEB_H * i)) as i32,
            },
            vel: Point { x: 0, y: 1 },
            frame: (i % 4) as usize,
            is_respawned: false,
        }
    }

    /// An inactive background for a screen of the given size. The sheet must
    /// hold at least one frame of the particle.
    pub fn new(sprite: &'a [u8], screen_width: i32, screen_height: i32) -> (r: Self)
        requires
            sheet_holds(sprite@, COBWEB_W as int, COBWEB_H as int, 0),
            0 < screen_width <= MAX_SCREEN_SIDE,
            0 < screen_height <= MAX_SCREEN_SIDE,
        ensures
            r.wf(),
            r.sprite@ == sprite@,
            r.mode is Inactive,
            r.screen_width == screen_width,
            r.screen_height == screen_height,
            r.rng_state == 0x1234_5678,
            r.frame_skip == 4,
            r.frame_counter == 0,
            forall|i: int| 0 <= i < 4 ==> r.cobwebs[i] == Self::initial_web(i, screen_width as int),
    {
        let sprite_w = COBWEB_W;
        let sprite_h = COBWEB_H;
        let frame_total = checked_frame_count(sprite, sprite_w, sprite_h);
        let lane_width: i32 = screen_width / 4;
        let blank = Cobweb {
            pos: Point { x: 0, y: 0 },
            vel: Point { x: 0, y: 1 },
            frame: 0,
            is_respawned: false,
        };
        let mut cobwebs: [Cobweb; 4] = [blank, blank, blank, blank];
        let mut i: usize = 0;
        while i < 4
            invariant
                i <= 4,
                lane_width == screen_width / 4,
                0 < screen_width <= MAX_SCREEN_SIDE,
                sprite_w == COBWEB_W,
                sprite_h == COBWEB_H,
                forall|k: int|
                    0 <= k < i ==> cobwebs[k] == Self::initial_web(k, screen_width as int),
                forall|k: int| i <= k < 4 ==> cobwebs[k] == blank,
            decreases 4 - i,
        {
            assert((i as i32) * lane_width <= 3 * lane_width && 0 <= (i as i32) * lane_width)
                by (nonlinear_arith)
                requires
                    0 <= i < 4,
                    0 <= lane_width,
            ;
            let lane_x: i32 = (i as i32) * lane_width;
            let x: i32 = lane_x + lane_width / 2 - (sprite_w as i32 / 2);
            let y: i32 = -((sprite_h as i32) * (i as i32));
            cobwebs[i] = Cobweb {
                pos: Point { x, y },
                vel: Point { x: 0, y: 1 },
                frame: i % 4,
                is_respawned: false,
            };
            i += 1;
        }
        proof {
            assert forall|k: int| 0 <= k < 4 implies cobweb_ok(
                #[trigger] cobwebs[k],
                frame_total,
                false,
            ) by {
                assert(cobwebs[k] == Self::initial_web(k, screen_width as int));
                assert(0 <= k * (screen_width / 4) <= 3 * (screen_width / 4)) by (nonlinear_arith)
                    requires
                        0 <= k < 4,
                        0 <= screen_width / 4,
                ;
            }
        }
        Self {
            sprite,
            sprite_w,
            sprite_h,
            frame_total,
            screen_width,
            screen_height,
            cobwebs,
            rng_state: 0x1234_5678,
            frame_skip: 4,
            frame_counter: 0,
            mode: BackgroundMode::Inactive,
        }
    }

    /// The part that changes from frame to frame.
    pub open spec fn motion(&self) -> BackgroundMotion {
        BackgroundMotion {
            mode: self.mode,
            cobwebs: self.cobwebs@,
            rng_state: self.rng_state,
            frame_counter: self.frame_counter,
        }
    }

    /// Whether two backgrounds are set up alike: same sheet, same screen,
    /// same throttle.
    pub open spec fn same_setup(&self, other: &Self) -> bool {
        &&& self.sprite@ == other.sprite@
        &&& self.sprite_w == other.sprite_w
        &&& self.sprite_h == other.sprite_h
        &&& self.frame_total == other.frame_total
        &&& self.screen_width == other.screen_width
        &&& self.screen_height == other.screen_height
        &&& self.frame_skip == other.frame_skip
    }

    /// Whether falling particle `i` is put back to the top in this frame,
    /// when the throttle counter stands at `counter`.
    pub open spec fn web_respawns(&self, counter: u8, i: int) -> bool {
        !web_rests(self.cobwebs[i], counter) && web_is_out(
            moved_web(self.cobwebs[i], self.frame_total as int),
            self.screen_width as int,
            self.screen_height as int,
        )
    }

    /// The state of the generator once the first `k` falling particles are
    /// done: each one that is put back took five numbers.
    pub open spec fn rng_after_webs(&self, counter: u8, k: int) -> u32
        decreases k,
    {
        if k <= 0 {
            self.rng_state
        } else if self.web_respawns(counter, k - 1) {
            lcg_nth(self.rng_after_webs(counter, k - 1), 5)
        } else {
            self.rng_after_webs(counter, k - 1)
        }
    }

    /// Falling particle `i` after this frame.
    pub open spec fn fallen_web(&self, counter: u8, i: int) -> Cobweb {
        if web_rests(self.cobwebs[i], counter) {
            self.cobwebs[i]
        } else if self.web_respawns(counter, i) {
            respawned_web(
                self.rng_after_webs(counter, i),
                self.screen_width as int,
                self.screen_height as int,
                self.frame_total as int,
            )
        } else {
            moved_web(self.cobwebs[i], self.frame_total as int)
        }
    }

    /// The throttle counter of the next frame.
    pub open spec fn next_counter(&self) -> u8 {
        ((self.frame_counter + 1) % (self.frame_skip as int)) as u8
    }

    /// What one frame makes of the background. The halo ends, and the
    /// particles start to fall, once its flash is over or the screen has left
    /// the intro.
    pub open spec fn stepped(&self, in_intro: bool) -> BackgroundMotion {
        match self.mode {
            BackgroundMode::Inactive => self.motion(),
            BackgroundMode::IntroHalo { step } => {
                let next: u8 = if step == 255 {
                    255u8
                } else {
                    (step + 1) as u8
                };
                if !in_intro || next > HALO_STEPS {
                    BackgroundMotion {
                        mode: BackgroundMode::Normal,
                        cobwebs: Seq::new(
                            4,
                            |i: int|
                                released_web(
                                    self.cobwebs[i],
                                    lcg_nth(self.rng_state, (2 * i) as nat),
                                ),
                        ),
                        rng_state: lcg_nth(self.rng_state, 8),
                        frame_counter: self.frame_counter,
                    }
                } else {
                    BackgroundMotion {
                        mode: BackgroundMode::IntroHalo { step: next },
                        ..self.motion()
                    }
                }
            },
            BackgroundMode::Normal => BackgroundMotion {
                mode: BackgroundMode::Normal,
                cobwebs: Seq::new(4, |i: int| self.fallen_web(self.next_counter(), i)),
                rng_state: self.rng_after_webs(self.next_counter(), 4),
                frame_counter: self.next_counter(),
            },
        }
    }

    /// The effect that the particles are drawn with.
    pub open spec fn shade(&self) -> Shade {
        match self.mode {
            BackgroundMode::IntroHalo { step } => flash_shade(step, HALO_STEPS),
            _ => Shade::Plain,
        }
    }

    /// What the canvas pixel `(tx, ty)` holds once the first `k` particles
    /// are drawn, one over the other.
    pub open spec fn webs_pixel(&self, prev: u8, k: int, tx: int, ty: int) -> u8
        decreases k,
    {
        if k <= 0 {
            prev
        } else {
            blit_pixel(
                self.webs_pixel(prev, k - 1, tx, ty),
                self.sprite@,
                self.sprite_w as int,
                self.sprite_h as int,
                self.cobwebs[k - 1].frame as int,
                self.cobwebs[k - 1].pos,
                self.shade(),
                tx,
                ty,
            )
        }
    }

    /// What the canvas pixel `(tx, ty)` holds after the background was drawn.
    pub open spec fn painted(&self, prev: u8, tx: int, ty: int) -> u8 {
        if self.mode is Inactive {
            prev
        } else {
            self.webs_pixel(prev, 4, tx, ty)
        }
    }

    /// Draws the next number of the generator.
    fn next_rand(&mut self) -> (r: u32)
        ensures
            r == lcg_next(old(self).rng_state),
            *final(self) == (Background { rng_state: r, ..*old(self) }),
    {
        self.rng_state = self.rng_state.wrapping_mul(1_664_525).wrapping_add(1_013_904_223);
        self.rng_state
    }
}

/// The first few states of the generator, one by one.
pub proof fn lemma_lcg_steps(s: u32, n: nat)
    ensures
        lcg_nth(s, 0) == s,
        lcg_nth(s, n + 1) == lcg_next(lcg_nth(s, n)),
        lcg_nth(s, n + 2) == lcg_next(lcg_next(lcg_nth(s, n))),
        lcg_nth(s, 5) == lcg_next(lcg_next(lcg_next(lcg_next(lcg_next(s))))),
{
    reveal_with_fuel(lcg_nth, 6);
}

/// The speed and drift that two random numbers give.
fn random_velocity(r_speed: u32, r_drift: u32) -> (vel: Point)
    ensures
        vel.x == drift(r_drift),
        vel.y == fall_speed(r_speed),
        -2 <= vel.x <= 2,
        2 <= vel.y <= 5,
{
    let speed_y: i32 = 2 + (r_speed % 4) as i32;
    let pick: u32 = r_drift % 3;
    let dx: i32 = if pick == 0 {
        -2
    } else if pick == 1 {
        0
    } else {
        2
    };
    Point { x: dx, y: speed_y }
}

impl<'a> Background<'a> {
    /// Whether the sheet, the screen and the throttle are in order; the
    /// particles may be anywhere.
    pub open spec fn setup_ok(&self) -> bool {
        &&& self.sprite_w == COBWEB_W
        &&& self.sprite_h == COBWEB_H
        &&& sheet_ok(self.sprite@, self.sprite_w, self.sprite_h, self.frame_total)
        &&& 0 < self.screen_width <= MAX_SCREEN_SIDE
        &&& 0 < self.screen_height <= MAX_SCREEN_SIDE
        &&& 0 < self.frame_skip
    }

    /// Puts particle `index` back to the top.
    fn respawn_at_top(&mut self, index: usize)
        requires
            old(self).setup_ok(),
            index < 4,
        ensures
            final(self).same_setup(old(self)),
            final(self).mode == old(self).mode,
            final(self).frame_counter == old(self).frame_counter,
            final(self).rng_state == lcg_nth(old(self).rng_state, 5),
            final(self).cobwebs@ == old(self).cobwebs@.update(
                index as int,
                respawned_web(
                    old(self).rng_state,
                    old(self).screen_width as int,
                    old(self).screen_height as int,
                    old(self).frame_total as int,
                ),
            ),
            cobweb_ok(final(self).cobwebs[index as int], final(self).frame_total, true),
    {
        let ghost pre = *self;
        proof {
            lemma_lcg_steps(self.rng_state, 0);
        }
        let lane_width: i32 = self.screen_width / 4;
        let r_lane = self.next_rand();
        let r_y = self.next_rand();
        let r_speed = self.next_rand();
        let r_drift = self.next_rand();
        let r_frame = self.next_rand();
        let lane_idx: usize = (r_lane as usize) % COBWEB_COUNT;
        assert((lane_idx as i32) * lane_width <= 3 * lane_width && 0 <= (lane_idx as i32)
            * lane_width) by (nonlinear_arith)
            requires
                0 <= lane_idx < 4,
                0 <= lane_width,
        ;
        let lane_x: i32 = (lane_idx as i32) * lane_width;
        let x: i32 = lane_x + lane_width / 2 - (self.sprite_w as i32 / 2);
        let max_offset: i32 = self.screen_height + self.sprite_h as i32;
        let offset: i32 = (r_y % (max_offset as u32)) as i32;
        let y: i32 = -offset;
        let vel = random_velocity(r_speed, r_drift);
        let frame: usize = (r_frame as usize) % self.frame_total;
        self.cobwebs[index] = Cobweb { pos: Point { x, y }, vel, frame, is_respawned: true };
        proof {
            assert(self.cobwebs@ =~= pre.cobwebs@.update(
                index as int,
                respawned_web(
                    pre.rng_state,
                    pre.screen_width as int,
                    pre.screen_height as int,
                    pre.frame_total as int,
                ),
            ));
        }
    }

    /// A particle of the halo round `origin`.
    pub open spec fn halo_web(&self, origin: Point, i: int) -> Cobweb {
        Cobweb {
            pos: Point {
                x: (origin.x + halo_offset(i).x) as i32,
                y: (origin.y + halo_offset(i).y) as i32,
            },
            vel: Point { x: 0, y: 0 },
            frame: (i % (self.frame_total as int)) as usize,
            is_respawned: false,
        }
    }

    /// Starts the halo: the particles snap to four places round `origin` and
    /// stand still, and the flash begins.
    pub fn start_intro_halo(&mut self, origin: Point)
        requires
            old(self).wf(),
            -HALO_ORIGIN_LIMIT <= origin.x <= HALO_ORIGIN_LIMIT,
            -HALO_ORIGIN_LIMIT <= origin.y <= HALO_ORIGIN_LIMIT,
        ensures
            final(self).wf(),
            final(self).same_setup(old(self)),
            final(self).motion() == (BackgroundMotion {
                mode: BackgroundMode::IntroHalo { step: 0 },
                cobwebs: Seq::new(4, |i: int| old(self).halo_web(origin, i)),
                ..old(self).motion()
            }),
    {
        let ghost pre = *self;
        let mut i: usize = 0;
        while i < 4
            invariant
                i <= 4,
                pre.wf(),
                self.same_setup(&pre),
                self.mode == pre.mode,
                self.rng_state == pre.rng_state,
                self.frame_counter == pre.frame_counter,
                -HALO_ORIGIN_LIMIT <= origin.x <= HALO_ORIGIN_LIMIT,
                -HALO_ORIGIN_LIMIT <= origin.y <= HALO_ORIGIN_LIMIT,
                forall|k: int| 0 <= k < i ==> self.cobwebs[k] == pre.halo_web(origin, k),
            decreases 4 - i,
        {
            let off: Point = if i == 0 {
                Point { x: -90, y: -15 }
            } else if i == 1 {
                Point { x: 90, y: -15 }
            } else if i == 2 {
                Point { x: -60, y: 15 }
            } else {
                Point { x: 60, y: 15 }
            };
            self.cobwebs[i] = Cobweb {
                pos: Point { x: origin.x + off.x, y: origin.y + off.y },
                vel: Point { x: 0, y: 0 },
                frame: i % self.frame_total,
                is_respawned: false,
            };
            i += 1;
        }
        self.mode = BackgroundMode::IntroHalo { step: 0 };
        proof {
            assert(self.cobwebs@ =~= Seq::new(4, |i: int| pre.halo_web(origin, i)));
        }
    }
}

impl<'a> Background<'a> {
    /// Falling particle `i` after it moved, and before any particle was put
    /// back to the top.
    pub open spec fn shifted_web(&self, counter: u8, i: int) -> Cobweb {
        if web_rests(self.cobwebs[i], counter) {
            self.cobwebs[i]
        } else {
            moved_web(self.cobwebs[i], self.frame_total as int)
        }
    }

    /// A falling particle that moved and stayed on the screen can move again.
    pub proof fn lemma_shifted_ok(&self, counter: u8, i: int)
        requires
            self.wf(),
            self.mode is Normal,
            0 <= i < 4,
            !self.web_respawns(counter, i),
        ensures
            cobweb_ok(self.shifted_web(counter, i), self.frame_total, true),
    {
        let web = self.cobwebs[i];
        assert(cobweb_ok(web, self.frame_total, true));
    }

    /// Draws the particles with the effect of the mode.
    #[verifier::rlimit(50)]
    fn draw_webs(&self, display: &mut FrameBuffer)
        requires
            self.wf(),
            !(self.mode is Inactive),
        ensures
            final(display).id_spec() == old(display).id_spec(),
            final(display).width_spec() == old(display).width_spec(),
            final(display).height_spec() == old(display).height_spec(),
            forall|tx: int, ty: int|
                old(display).contains(tx, ty) ==> final(display).pixel(tx, ty) == self.webs_pixel(
                    old(display).pixel(tx, ty),
                    4,
                    tx,
                    ty,
                ),
    {
        let ghost before = *display;
        let mut i: usize = 0;
        while i < 4
            invariant
                i <= 4,
                self.wf(),
                !(self.mode is Inactive),
                display.id_spec() == before.id_spec(),
                display.width_spec() == before.width_spec(),
                display.height_spec() == before.height_spec(),
                forall|tx: int, ty: int|
                    before.contains(tx, ty) ==> display.pixel(tx, ty) == self.webs_pixel(
                        before.pixel(tx, ty),
                        i as int,
                        tx,
                        ty,
                    ),
            decreases 4 - i,
        {
            let web = self.cobwebs[i];
            assert(cobweb_ok(self.cobwebs[i as int], self.frame_total, true));
            match self.mode {
                BackgroundMode::IntroHalo { step } => {
                    draw_sheet_frame_flash(
                        display,
                        self.sprite,
                        self.sprite_w,
                        self.sprite_h,
                        web.frame,
                        web.pos,
                        step,
                        HALO_STEPS,
                    );
                },
                _ => {
                    draw_sheet_frame_masked(
                        display,
                        self.sprite,
                        self.sprite_w,
                        self.sprite_h,
                        web.frame,
                        web.pos,
                    );
                },
            }
            i += 1;
        }
    }

    /// Draws the background and moves it on by one frame. `screen` is the
    /// state of the screen in this frame.
    pub fn draw(&mut self, display: &mut FrameBuffer, screen: ScreenState)
        requires
            old(self).wf(),
        ensures
            final(self).wf(),
            final(self).same_setup(old(self)),
            final(self).motion() == old(self).stepped(screen == ScreenState::INTRO),
            final(display).id_spec() == old(display).id_spec(),
            final(display).width_spec() == old(display).width_spec(),
            final(display).height_spec() == old(display).height_spec(),
            forall|tx: int, ty: int|
                old(display).contains(tx, ty) ==> final(display).pixel(tx, ty) == old(
                    self,
                ).painted(old(display).pixel(tx, ty), tx, ty),
    {
        let ghost pre = *self;
        match self.mode {
            BackgroundMode::Inactive => {
                assert(self.cobwebs@ =~= pre.motion().cobwebs);
            },
            BackgroundMode::IntroHalo { step } => {
                self.draw_webs(display);
                let next: u8 = step.saturating_add(1);
                if screen != ScreenState::INTRO || next > HALO_STEPS {
                    self.release_webs();
                } else {
                    self.mode = BackgroundMode::IntroHalo { step: next };
                    assert(self.cobwebs@ =~= pre.motion().cobwebs);
                }
            },
            BackgroundMode::Normal => {
                self.draw_webs(display);
                self.fall();
            },
        }
    }

    /// Ends the halo: every particle gets a speed and a drift, and the
    /// particles start to fall.
    #[verifier::rlimit(50)]
    fn release_webs(&mut self)
        requires
            old(self).wf(),
            old(self).mode is IntroHalo,
        ensures
            final(self).wf(),
            final(self).same_setup(old(self)),
            final(self).motion() == (BackgroundMotion {
                mode: BackgroundMode::Normal,
                cobwebs: Seq::new(
                    4,
                    |i: int|
                        released_web(
                            old(self).cobwebs[i],
                            lcg_nth(old(self).rng_state, (2 * i) as nat),
                        ),
                ),
                rng_state: lcg_nth(old(self).rng_state, 8),
                frame_counter: old(self).frame_counter,
            }),
    {
        let ghost pre = *self;
        let mut i: usize = 0;
        while i < 4
            invariant
                i <= 4,
                pre.wf(),
                pre.mode is IntroHalo,
                self.same_setup(&pre),
                self.mode == pre.mode,
                self.frame_counter == pre.frame_counter,
                self.rng_state == lcg_nth(pre.rng_state, (2 * i) as nat),
                forall|k: int|
                    0 <= k < i ==> self.cobwebs[k] == released_web(
                        pre.cobwebs[k],
                        lcg_nth(pre.rng_state, (2 * k) as nat),
                    ),
                forall|k: int| i <= k < 4 ==> self.cobwebs[k] == pre.cobwebs[k],
            decreases 4 - i,
        {
            proof {
                lemma_lcg_steps(pre.rng_state, (2 * i) as nat);
            }
            let r_speed = self.next_rand();
            let r_drift = self.next_rand();
            let vel = random_velocity(r_speed, r_drift);
            let web = self.cobwebs[i];
            assert(cobweb_ok(pre.cobwebs[i as int], pre.frame_total, true));
            self.cobwebs[i] = Cobweb { vel, ..web };
            i += 1;
        }
        self.mode = BackgroundMode::Normal;
        proof {
            assert(self.cobwebs@ =~= Seq::new(
                4,
                |i: int| released_web(pre.cobwebs[i], lcg_nth(pre.rng_state, (2 * i) as nat)),
            ));
            assert forall|k: int| 0 <= k < 4 implies cobweb_ok(
                #[trigger] self.cobwebs[k],
                self.frame_total,
                true,
            ) by {
                assert(cobweb_ok(pre.cobwebs[k], pre.frame_total, true));
            }
        }
    }

    /// Moves the falling particles on by one frame and puts those that left
    /// the screen back to the top.
    #[verifier::rlimit(50)]
    fn fall(&mut self)
        requires
            old(self).wf(),
            old(self).mode is Normal,
        ensures
            final(self).wf(),
            final(self).same_setup(old(self)),
            final(self).motion() == (BackgroundMotion {
                mode: BackgroundMode::Normal,
                cobwebs: Seq::new(4, |i: int| old(self).fallen_web(old(self).next_counter(), i)),
                rng_state: old(self).rng_after_webs(old(self).next_counter(), 4),
                frame_counter: old(self).next_counter(),
            }),
    {
        let ghost pre = *self;
        self.frame_counter = (self.frame_counter + 1) % self.frame_skip;
        let counter = self.frame_counter;
        let mut to_respawn: [bool; 4] = [false; 4];
        let mut i: usize = 0;
        while i < 4
            invariant
                i <= 4,
                pre.wf(),
                pre.mode is Normal,
                self.same_setup(&pre),
                self.mode == pre.mode,
                self.rng_state == pre.rng_state,
                self.frame_counter == counter,
                counter == pre.next_counter(),
                forall|k: int| 0 <= k < i ==> self.cobwebs[k] == pre.shifted_web(counter, k),
                forall|k: int| 0 <= k < i ==> to_respawn[k] == pre.web_respawns(counter, k),
                forall|k: int| i <= k < 4 ==> !to_respawn[k],
                forall|k: int| i <= k < 4 ==> self.cobwebs[k] == pre.cobwebs[k],
            decreases 4 - i,
        {
            let web = self.cobwebs[i];
            assert(cobweb_ok(pre.cobwebs[i as int], pre.frame_total, true));
            if !(counter > 0 && web.is_respawned) {
                let moved = Cobweb {
                    frame: (web.frame + 1) % self.frame_total,
                    pos: Point { x: web.pos.x + web.vel.x, y: web.pos.y + web.vel.y },
                    ..web
                };
                self.cobwebs[i] = moved;
                if moved.pos.y > self.screen_height + self.sprite_h as i32 || moved.pos.x
                    > self.screen_width + self.sprite_w as i32 || moved.pos.x < -(
                self.sprite_w as i32) {
                    to_respawn[i] = true;
                }
            }
            i += 1;
        }
        let mut i: usize = 0;
        while i < 4
            invariant
                i <= 4,
                pre.wf(),
                pre.mode is Normal,
                self.setup_ok(),
                self.same_setup(&pre),
                self.mode == pre.mode,
                self.frame_counter == counter,
                counter == pre.next_counter(),
                self.rng_state == pre.rng_after_webs(counter, i as int),
                forall|k: int| 0 <= k < i ==> self.cobwebs[k] == pre.fallen_web(counter, k),
                forall|k: int| 0 <= k < 4 ==> to_respawn[k] == pre.web_respawns(counter, k),
                forall|k: int| i <= k < 4 ==> self.cobwebs[k] == pre.shifted_web(counter, k),
                forall|k: int|
                    0 <= k < i ==> cobweb_ok(#[trigger] self.cobwebs[k], self.frame_total, true),
            decreases 4 - i,
        {
            let ghost r0 = self.rng_state;
            if to_respawn[i] {
                self.respawn_at_top(i);
                proof {
                    assert(pre.web_respawns(counter, i as int));
                    assert(pre.rng_after_webs(counter, i + 1) == lcg_nth(r0, 5));
                    assert(self.cobwebs[i as int] == pre.fallen_web(counter, i as int));
                }
            } else {
                proof {
                    assert(!pre.web_respawns(counter, i as int));
                    assert(pre.rng_after_webs(counter, i + 1) == r0);
                    assert(pre.fallen_web(counter, i as int) == pre.shifted_web(
                        counter,
                        i as int,
                    ));
                    pre.lemma_shifted_ok(counter, i as int);
                }
            }
            i += 1;
        }
        proof {
            assert(self.cobwebs@ =~= Seq::new(4, |i: int| pre.fallen_web(counter, i)));
        }
    }
}

/// The number of frames of a sheet that holds at least one.
pub fn checked_frame_count(sprite: &[u8], w: u32, h: u32) -> (n: usize)
    requires
        w > 0,
        h > 0,
        sheet_holds(sprite@, w as int, h as int, 0),
    ensures
        sheet_ok(sprite@, w, h, n),
        n == sprite@.len() / (frame_size_spec(w as int, h as int) as nat),
{
    let n = frame_count(sprite, w, h);
    proof {
        let fsz = frame_size_spec(w as int, h as int);
        assert(fsz > 0) by (nonlinear_arith)
            requires
                fsz == crate::gray4::row_bytes_spec(w as int) * h,
                crate::gray4::row_bytes_spec(w as int) > 0,
                h > 0,
        ;
        vstd::arithmetic::div_mod::lemma_div_is_ordered(fsz, sprite@.len() as int, fsz);
        vstd::arithmetic::div_mod::lemma_div_by_self(fsz);
    }
    n
}

/// The number of frames of the intro.
pub const INTRO_FRAMES: usize = 26;

/// The frame of the intro at which the halo is fired.
pub const FIREWORK_FRAME: usize = 8;

/// The intro scene: the sprite rises into the screen.
pub struct IntroScreen<'a> {
    pub sprite: &'a [u8],
    pub start_coords: Point,
    pub coords: Point,
    pub sprite_w: u32,
    pub sprite_h: u32,
    pub frame: usize,
    pub frame_total: usize,
    pub intro_frame: usize,
    pub intro_frame_total: usize,
    pub firework_frame: usize,
    /// Set in the one frame in which the halo is to be fired.
    pub firework_time: bool,
}

impl<'a> IntroScreen<'a> {
    /// Whether the scene is in order: its sheet holds the frames it counts,
    /// and both of its counters are within their cycles.
    pub open spec fn wf(&self) -> bool {
        &&& sheet_ok(self.sprite@, self.sprite_w, self.sprite_h, self.frame_total)
        &&& self.frame < self.frame_total
        &&& self.intro_frame < self.intro_frame_total
    }

    /// Whether this frame is the last of the intro.
    pub open spec fn finishes(&self) -> bool {
        self.intro_frame + 1 >= self.intro_frame_total
    }

    /// The scene one frame on: the sprite has risen by eight pixels until it
    /// reached the top; after the last frame the scene is as at the start.
    pub open spec fn stepped(&self) -> Self {
        let fired = self.intro_frame + 1 == self.firework_frame;
        if self.finishes() {
            IntroScreen {
                coords: self.start_coords,
                intro_frame: 0,
                frame: 0,
                firework_time: fired,
                ..*self
            }
        } else {
            IntroScreen {
                coords: if self.coords.y > 0 {
                    Point { x: self.coords.x, y: (self.coords.y - 8) as i32 }
                } else {
                    Point { x: self.start_coords.x, y: 0 }
                },
                intro_frame: (self.intro_frame + 1) as usize,
                frame: ((self.frame + 1) % (self.frame_total as int)) as usize,
                firework_time: fired,
                ..*self
            }
        }
    }

    /// The scene at its first frame. The sheet must hold at least one frame.
    pub fn new(sprite: &'a [u8], start_coords: Point, sprite_w: u32, sprite_h: u32) -> (r: Self)
        requires
            sprite_w > 0,
            sprite_h > 0,
            sheet_holds(sprite@, sprite_w as int, sprite_h as int, 0),
        ensures
            r.wf(),
            r.sprite@ == sprite@,
            r.start_coords == start_coords,
            r.coords == start_coords,
            r.sprite_w == sprite_w,
            r.sprite_h == sprite_h,
            r.frame == 0,
            r.intro_frame == 0,
            r.intro_frame_total == INTRO_FRAMES,
            r.firework_frame == FIREWORK_FRAME,
            !r.firework_time,
    {
        Self {
            sprite,
            start_coords,
            coords: start_coords,
            sprite_w,
            sprite_h,
            frame: 0,
            frame_total: checked_frame_count(sprite, sprite_w, sprite_h),
            intro_frame: 0,
            intro_frame_total: INTRO_FRAMES,
            firework_frame: FIREWORK_FRAME,
            firework_time: false,
        }
    }

    /// Draws the scene and moves it on by one frame; after the last frame of
    /// the intro the screen goes to standby.
    pub fn draw(&mut self, display: &mut FrameBuffer, shared: &mut SharedState)
        requires
            old(self).wf(),
        ensures
            final(self).wf(),
            *final(self) == old(self).stepped(),
            final(shared)@ == if old(self).finishes() {
                SharedView { screen: ScreenState::STANDBY, ..old(shared)@ }
            } else {
                old(shared)@
            },
            final(display).id_spec() == old(display).id_spec(),
            final(display).width_spec() == old(display).width_spec(),
            final(display).height_spec() == old(display).height_spec(),
            forall|tx: int, ty: int|
                old(display).contains(tx, ty) ==> final(display).pixel(tx, ty) == blit_pixel(
                    old(display).pixel(tx, ty),
                    old(self).sprite@,
                    old(self).sprite_w as int,
                    old(self).sprite_h as int,
                    old(self).frame as int,
                    old(self).coords,
                    Shade::Plain,
                    tx,
                    ty,
                ),
    {
        draw_sheet_frame_masked(
            display,
            self.sprite,
            self.sprite_w,
            self.sprite_h,
            self.frame,
            self.coords,
        );
        self.frame = (self.frame + 1) % self.frame_total;
        self.intro_frame += 1;
        if self.coords.y > 0 {
            self.coords = Point { x: self.coords.x, y: self.coords.y - 8 };
        } else {
            self.coords = Point { x: self.start_coords.x, y: 0 };
        }
        self.firework_time = self.intro_frame == self.firework_frame;
        if self.intro_frame >= self.intro_frame_total {
            shared.set_screen_state(ScreenState::STANDBY);
            self.coords = self.start_coords;
            self.intro_frame = 0;
            self.frame = 0;
        }
    }
}

/// The standby scene: the sprite walks to and fro.
pub struct StandbyScreen<'a> {
    pub sprite: &'a [u8],
    /// The right end of the walk.
    pub width: u32,
    pub coords: Point,
    pub sprite_w: u32,
    pub sprite_h: u32,
    pub frame: usize,
    pub frame_total: usize,
    /// Whether the sprite walks to the right.
    pub direction: bool,
}

impl<'a> StandbyScreen<'a> {
    /// Whether the scene is in order: its sheet holds the frames it counts,
    /// and the sprite can take its next step.
    pub open spec fn wf(&self) -> bool {
        &&& sheet_ok(self.sprite@, self.sprite_w, self.sprite_h, self.frame_total)
        &&& self.frame < self.frame_total
        &&& self.width <= i32::MAX
        &&& self.direction ==> self.coords.x < i32::MAX
        &&& !self.direction ==> self.coords.x > i32::MIN
    }

    /// The scene one frame on: the sprite has walked one pixel, and turns
    /// round where it reached an end of its walk.
    pub open spec fn stepped(&self) -> Self {
        let x = if self.direction {
            self.coords.x + 1
        } else {
            self.coords.x - 1
        };
        StandbyScreen {
            coords: Point { x: x as i32, y: self.coords.y },
            frame: ((self.frame + 1) % (self.frame_total as int)) as usize,
            direction: if x >= self.width || x <= 0 {
                !self.direction
            } else {
                self.direction
            },
            ..*self
        }
    }

    /// The scene at its first frame, the sprite walking to the right. The sheet
    /// must hold at least one frame.
    pub fn new(sprite: &'a [u8], coords: Point, sprite_w: u32, sprite_h: u32, width: u32) -> (r:
        Self)
        requires
            sprite_w > 0,
            sprite_h > 0,
            sheet_holds(sprite@, sprite_w as int, sprite_h as int, 0),
            coords.x < i32::MAX,
            width <= i32::MAX,
        ensures
            r.wf(),
            r.sprite@ == sprite@,
            r.coords == coords,
            r.width == width,
            r.sprite_w == sprite_w,
            r.sprite_h == sprite_h,
            r.frame == 0,
            r.direction,
    {
        Self {
            sprite,
            coords,
            width,
            sprite_w,
            sprite_h,
            frame: 0,
            frame_total: checked_frame_count(sprite, sprite_w, sprite_h),
            direction: true,
        }
    }

    /// Draws the scene and moves it on by one frame.
    pub fn draw(&mut self, display: &mut FrameBuffer)
        requires
            old(self).wf(),
        ensures
            final(self).wf(),
            *final(self) == old(self).stepped(),
            final(display).id_spec() == old(display).id_spec(),
            final(display).width_spec() == old(display).width_spec(),
            final(display).height_spec() == old(display).height_spec(),
            forall|tx: int, ty: int|
                old(display).contains(tx, ty) ==> final(display).pixel(tx, ty) == blit_pixel(
                    old(display).pixel(tx, ty),
                    old(self).sprite@,
                    old(self).sprite_w as int,
                    old(self).sprite_h as int,
                    old(self).frame as int,
                    old(self).coords,
                    Shade::Plain,
                    tx,
                    ty,
                ),
    {
        draw_sheet_frame_masked(
            display,
            self.sprite,
            self.sprite_w,
            self.sprite_h,
            self.frame,
            self.coords,
        );
        self.frame = (self.frame + 1) % self.frame_total;
        let x: i32 = if self.direction {
            self.coords.x + 1
        } else {
            self.coords.x - 1
        };
        let turns: bool = x >= self.width as i32 || x <= 0;
        self.coords = Point { x, y: self.coords.y };
        if turns {
            self.direction = !self.direction;
        }
    }
}

/// The active scene: the close-up sprite, which glitches while input is
/// active.
pub struct ActiveChannelScreen<'a> {
    pub sprite: &'a [u8],
    pub coords: Point,
    pub sprite_w: u32,
    pub sprite_h: u32,
    pub frame: usize,
    pub frame_total: usize,
    /// The tick that the glitch is derived from.
    pub frame_global: u8,
}

impl<'a> ActiveChannelScreen<'a> {
    /// Whether the scene is in order: its sheet holds the frames it counts.
    pub open spec fn wf(&self) -> bool {
        &&& sheet_ok(self.sprite@, self.sprite_w, self.sprite_h, self.frame_total)
        &&& self.frame < self.frame_total
    }

    /// The scene one frame on.
    pub open spec fn stepped(&self) -> Self {
        ActiveChannelScreen {
            frame: ((self.frame + 1) % (self.frame_total as int)) as usize,
            frame_global: if self.frame_global == 255 {
                0u8
            } else {
                (self.frame_global + 1) as u8
            },
            ..*self
        }
    }

    /// The scene at its first frame. The sheet must hold at least one frame.
    pub fn new(sprite: &'a [u8], coords: Point, sprite_w: u32, sprite_h: u32) -> (r: Self)
        requires
            sprite_w > 0,
            sprite_h > 0,
            sheet_holds(sprite@, sprite_w as int, sprite_h as int, 0),
        ensures
            r.wf(),
            r.sprite@ == sprite@,
            r.coords == coords,
            r.sprite_w == sprite_w,
            r.sprite_h == sprite_h,
            r.frame == 0,
            r.frame_global == 0,
    {
        Self {
            sprite,
            coords,
            sprite_w,
            sprite_h,
            frame: 0,
            frame_total: checked_frame_count(sprite, sprite_w, sprite_h),
            frame_global: 0,
        }
    }

    /// Draws the scene, with the glitch while `active_input`, and moves it on
    /// by one frame.
    pub fn draw(&mut self, display: &mut FrameBuffer, active_input: bool)
        requires
            old(self).wf(),
        ensures
            final(self).wf(),
            *final(self) == old(self).stepped(),
            final(display).id_spec() == old(display).id_spec(),
            final(display).width_spec() == old(display).width_spec(),
            final(display).height_spec() == old(display).height_spec(),
            forall|tx: int, ty: int|
                old(display).contains(tx, ty) ==> final(display).pixel(tx, ty) == blit_pixel(
                    old(display).pixel(tx, ty),
                    old(self).sprite@,
                    old(self).sprite_w as int,
                    old(self).sprite_h as int,
                    old(self).frame as int,
                    old(self).coords,
                    glitch_shade(old(self).frame_global, active_input),
                    tx,
                    ty,
                ),
    {
        draw_sheet_frame_masked_crt(
            display,
            self.sprite,
            self.sprite_w,
            self.sprite_h,
            self.frame,
            self.coords,
            self.frame_global,
            active_input,
        );
        self.frame_global = if self.frame_global == 255 {
            0
        } else {
            self.frame_global + 1
        };
        self.frame = (self.frame + 1) % self.frame_total;
    }
}

/// The number of steps of the outro's fade.
pub const OUTRO_FADE_STEPS: u8 = 16;

/// The outro scene: the sprite fades to black.
pub struct OutroScreen<'a> {
    pub sprite: &'a [u8],
    pub start_coords: Point,
    pub coords: Point,
    pub sprite_w: u32,
    pub sprite_h: u32,
    pub frame: usize,
    pub frame_total: usize,
    pub fade_step: u8,
    pub fade_steps: u8,
}

impl<'a> OutroScreen<'a> {
    /// Whether the scene is in order: its sheet holds the frames it counts.
    pub open spec fn wf(&self) -> bool {
        &&& sheet_ok(self.sprite@, self.sprite_w, self.sprite_h, self.frame_total)
        &&& self.frame < self.frame_total
    }

    /// Whether the fade is over with this frame.
    pub open spec fn finishes(&self) -> bool {
        self.fade_step >= self.fade_steps
    }

    /// The scene one frame on: one step further into the fade, or, once the
    /// fade is over, as at the start.
    pub open spec fn stepped(&self) -> Self {
        if self.finishes() {
            OutroScreen { coords: self.start_coords, fade_step: 0, frame: 0, ..*self }
        } else {
            OutroScreen {
                fade_step: (self.fade_step + 1) as u8,
                frame: ((self.frame + 1) % (self.frame_total as int)) as usize,
                ..*self
            }
        }
    }

    /// The scene at its first frame, before the fade. The sheet must hold at
    /// least one frame.
    pub fn new(sprite: &'a [u8], start_coords: Point, sprite_w: u32, sprite_h: u32) -> (r: Self)
        requires
            sprite_w > 0,
            sprite_h > 0,
            sheet_holds(sprite@, sprite_w as int, sprite_h as int, 0),
        ensures
            r.wf(),
            r.sprite@ == sprite@,
            r.start_coords == start_coords,
            r.coords == start_coords,
            r.sprite_w == sprite_w,
            r.sprite_h == sprite_h,
            r.frame == 0,
            r.fade_step == 0,
            r.fade_steps == OUTRO_FADE_STEPS,
    {
        Self {
            sprite,
            start_coords,
            coords: start_coords,
            sprite_w,
            sprite_h,
            frame: 0,
            frame_total: checked_frame_count(sprite, sprite_w, sprite_h),
            fade_step: 0,
            fade_steps: OUTRO_FADE_STEPS,
        }
    }

    /// Draws the scene and moves it on by one frame; once the fade is over
    /// the screen goes off.
    pub fn draw(&mut self, display: &mut FrameBuffer, shared: &mut SharedState)
        requires
            old(self).wf(),
        ensures
            final(self).wf(),
            *final(self) == old(self).stepped(),
            final(shared)@ == if old(self).finishes() {
                SharedView { screen: ScreenState::OFF, ..old(shared)@ }
            } else {
                old(shared)@
            },
            final(display).id_spec() == old(display).id_spec(),
            final(display).width_spec() == old(display).width_spec(),
            final(display).height_spec() == old(display).height_spec(),
            forall|tx: int, ty: int|
                old(display).contains(tx, ty) ==> final(display).pixel(tx, ty) == blit_pixel(
                    old(display).pixel(tx, ty),
                    old(self).sprite@,
                    old(self).sprite_w as int,
                    old(self).sprite_h as int,
                    old(self).frame as int,
                    old(self).coords,
                    fade_shade(old(self).fade_step, old(self).fade_steps),
                    tx,
                    ty,
                ),
    {
        draw_sheet_frame_fade_dither(
            display,
            self.sprite,
            self.sprite_w,
            self.sprite_h,
            self.frame,
            self.coords,
            self.fade_step,
            self.fade_steps,
        );
        self.frame = (self.frame + 1) % self.frame_total;
        if self.fade_step < self.fade_steps {
            self.fade_step += 1;
        } else {
            self.coords = self.start_coords;
            self.fade_step = 0;
            self.frame = 0;
            shared.set_screen_state(ScreenState::OFF);
        }
    }
}

/// The sprite sheets and icons that the scenes draw.
#[derive(Clone, Copy)]
pub struct Assets<'a> {
    /// The walking sprite of the standby scene.
    pub spider: &'a [u8],
    /// The close-up sprite of the intro, the active and the outro scene.
    pub spider_close: &'a [u8],
    /// The background particle.
    pub cobweb: &'a [u8],
    pub icons: IconSet<'a>,
}

impl<'a> Assets<'a> {
    /// Whether every sheet holds at least one frame and every icon is whole.
    pub open spec fn wf(&self) -> bool {
        &&& sheet_holds(self.spider@, SPIDER_SHEET_W as int, SPIDER_SHEET_H as int, 0)
        &&& sheet_holds(self.spider_close@, SPIDER_CLOSE_SHEET_W as int, SPIDER_CLOSE_SHEET_H as int, 0)
        &&& sheet_holds(self.cobweb@, COBWEB_W as int, COBWEB_H as int, 0)
        &&& self.icons.wf()
    }

    /// Whether every sheet holds at least one frame and every icon is whole.
    pub fn is_valid(&self) -> (ok: bool)
        ensures
            ok == self.wf(),
    {
        assert(frame_size_spec(SPIDER_SHEET_W as int, SPIDER_SHEET_H as int) == 3328);
        assert(frame_size_spec(SPIDER_CLOSE_SHEET_W as int, SPIDER_CLOSE_SHEET_H as int) == 3904);
        assert(frame_size_spec(COBWEB_W as int, COBWEB_H as int) == 800);
        self.spider.len() >= 3328 && self.spider_close.len() >= 3904 && self.cobweb.len() >= 800
            && self.icons.is_valid()
    }
}

/// Where the volume indicator stands.
pub open spec fn indicator_coords() -> Point {
    Point { x: 170, y: 1 }
}

/// The centre of the intro's halo.
pub open spec fn halo_origin() -> Point {
    Point { x: 108, y: 20 }
}

/// The state of the screen in this frame: an active screen without an active
/// channel falls back to standby, and a screen in standby with an active
/// channel becomes active.
pub open spec fn scene_of(shared: SharedView) -> ScreenState {
    if shared.active is None && shared.screen == ScreenState::ACTIVE {
        ScreenState::STANDBY
    } else if shared.active is Some && shared.screen == ScreenState::STANDBY {
        ScreenState::ACTIVE
    } else {
        shared.screen
    }
}

/// The screen director: the scenes, and which of them is drawn.
pub struct Director<'a> {
    pub indicator: VolumeIndicator,
    pub background: Background<'a>,
    pub intro_screen: IntroScreen<'a>,
    pub standby_screen: StandbyScreen<'a>,
    pub active_channel_screen: ActiveChannelScreen<'a>,
    pub outro_screen: OutroScreen<'a>,
    pub icons: IconSet<'a>,
}

impl<'a> Director<'a> {
    /// Whether every scene, the indicator and the icons are in order.
    pub open spec fn wf(&self) -> bool {
        &&& self.indicator.wf()
        &&& self.background.wf()
        &&& self.intro_screen.wf()
        &&& self.standby_screen.wf()
        &&& self.active_channel_screen.wf()
        &&& self.outro_screen.wf()
        &&& self.icons.wf()
    }

    /// The director at start, every scene at its first frame.
    pub fn new(assets: Assets<'a>) -> (r: Self)
        requires
            assets.wf(),
        ensures
            r.wf(),
            r.icons == assets.icons,
            r.indicator.coords == indicator_coords(),
            r.background.sprite@ == assets.cobweb@,
            r.background.mode is Inactive,
            r.background.screen_width == SCREEN_WIDTH,
            r.background.screen_height == SCREEN_HEIGHT,
            r.intro_screen.sprite@ == assets.spider_close@,
            r.intro_screen.coords == (Point { x: 66, y: 64 }),
            r.intro_screen.frame == 0,
            r.intro_screen.intro_frame == 0,
            r.standby_screen.sprite@ == assets.spider@,
            r.standby_screen.coords == (Point { x: 0, y: 0 }),
            r.standby_screen.width == 151,
            r.standby_screen.frame == 0,
            r.active_channel_screen.sprite@ == assets.spider_close@,
            r.active_channel_screen.coords == (Point { x: 15, y: 0 }),
            r.active_channel_screen.frame == 0,
            r.outro_screen.sprite@ == assets.spider_close@,
            r.outro_screen.coords == (Point { x: 66, y: 0 }),
            r.outro_screen.frame == 0,
            r.outro_screen.fade_step == 0,
    {
        Director {
            indicator: VolumeIndicator::new(Point { x: 170, y: 1 }),
            background: Background::new(assets.cobweb, SCREEN_WIDTH as i32, SCREEN_HEIGHT as i32),
            intro_screen: IntroScreen::new(
                assets.spider_close,
                Point { x: 66, y: 64 },
                SPIDER_CLOSE_SHEET_W,
                SPIDER_CLOSE_SHEET_H,
            ),
            standby_screen: StandbyScreen::new(
                assets.spider,
                Point { x: 0, y: 0 },
                SPIDER_SHEET_W,
                SPIDER_SHEET_H,
                151,
            ),
            active_channel_screen: ActiveChannelScreen::new(
                assets.spider_close,
                Point { x: 15, y: 0 },
                SPIDER_CLOSE_SHEET_W,
                SPIDER_CLOSE_SHEET_H,
            ),
            outro_screen: OutroScreen::new(
                assets.spider_close,
                Point { x: 66, y: 0 },
                SPIDER_CLOSE_SHEET_W,
                SPIDER_CLOSE_SHEET_H,
            ),
            icons: assets.icons,
        }
    }

    /// What a scene's sprite makes of the canvas pixel `(tx, ty)`.
    pub open spec fn sprite_pixel(
        prev: u8,
        sprite: Seq<u8>,
        w: u32,
        h: u32,
        frame: usize,
        coords: Point,
        e: Shade,
        tx: int,
        ty: int,
    ) -> u8 {
        blit_pixel(prev, sprite, w as int, h as int, frame as int, coords, e, tx, ty)
    }

    /// What the canvas pixel `(tx, ty)` holds after this frame was drawn on a
    /// black canvas: in the intro and in standby the background with the
    /// scene's sprite over it, on the active screen the glitching sprite with
    /// the indicator of the active channel over it, in the outro the fading
    /// sprite, and nothing when the screen is off.
    pub open spec fn frame_pixel(
        &self,
        shared: SharedView,
        channels: Seq<AdcChanCfg>,
        tx: int,
        ty: int,
    ) -> u8 {
        match scene_of(shared) {
            ScreenState::INTRO => Self::sprite_pixel(
                self.background.painted(0, tx, ty),
                self.intro_screen.sprite@,
                self.intro_screen.sprite_w,
                self.intro_screen.sprite_h,
                self.intro_screen.frame,
                self.intro_screen.coords,
                Shade::Plain,
                tx,
                ty,
            ),
            ScreenState::STANDBY => Self::sprite_pixel(
                self.background.painted(0, tx, ty),
                self.standby_screen.sprite@,
                self.standby_screen.sprite_w,
                self.standby_screen.sprite_h,
                self.standby_screen.frame,
                self.standby_screen.coords,
                Shade::Plain,
                tx,
                ty,
            ),
            ScreenState::ACTIVE => indicator_pixel(
                Self::sprite_pixel(
                    0,
                    self.active_channel_screen.sprite@,
                    self.active_channel_screen.sprite_w,
                    self.active_channel_screen.sprite_h,
                    self.active_channel_screen.frame,
                    self.active_channel_screen.coords,
                    glitch_shade(self.active_channel_screen.frame_global, shared.active_input),
                    tx,
                    ty,
                ),
                self.icons.icon_spec(channels[shared.active->0 as int].target),
                shared.values[shared.active->0 as int] as u16,
                self.indicator.coords,
                tx,
                ty,
            ),
            ScreenState::OUTRO => Self::sprite_pixel(
                0,
                self.outro_screen.sprite@,
                self.outro_screen.sprite_w,
                self.outro_screen.sprite_h,
                self.outro_screen.frame,
                self.outro_screen.coords,
                fade_shade(self.outro_screen.fade_step, self.outro_screen.fade_steps),
                tx,
                ty,
            ),
            ScreenState::OFF => 0,
        }
    }

    /// The state of the screen after this frame: the scene of this frame,
    /// but standby after the last frame of the intro and off after the last
    /// frame of the outro.
    pub open spec fn next_screen(&self, shared: SharedView) -> ScreenState {
        match scene_of(shared) {
            ScreenState::INTRO => if self.intro_screen.finishes() {
                ScreenState::STANDBY
            } else {
                ScreenState::INTRO
            },
            ScreenState::OUTRO => if self.outro_screen.finishes() {
                ScreenState::OFF
            } else {
                ScreenState::OUTRO
            },
            other => other,
        }
    }

    /// The background after this frame: it moves on in the intro and in
    /// standby, and in the frame in which the intro fires it the halo starts.
    pub open spec fn next_background(&self, shared: SharedView) -> BackgroundMotion {
        match scene_of(shared) {
            ScreenState::INTRO => if self.intro_screen.stepped().firework_time {
                BackgroundMotion {
                    mode: BackgroundMode::IntroHalo { step: 0 },
                    cobwebs: Seq::new(4, |i: int| self.background.halo_web(halo_origin(), i)),
                    ..self.background.stepped(true)
                }
            } else {
                self.background.stepped(true)
            },
            ScreenState::STANDBY => self.background.stepped(false),
            _ => self.background.motion(),
        }
    }

    /// Draws one frame: clears the canvas, settles which scene is on, draws
    /// that scene and moves it on. `channels` is the calibration table, one
    /// entry for each channel of the shared state.
    #[verifier::rlimit(50)]
    pub fn draw_frame(
        &mut self,
        frame: &mut FrameBuffer,
        shared: &mut SharedState,
        channels: &[AdcChanCfg],
    )
        requires
            old(self).wf(),
            channels@.len() == old(shared)@.values.len(),
        ensures
            final(self).wf(),
            final(shared)@ == (SharedView {
                screen: old(self).next_screen(old(shared)@),
                ..old(shared)@
            }),
            final(self).icons == old(self).icons,
            if scene_of(old(shared)@) == ScreenState::ACTIVE {
                final(self).indicator.has_drawn(
                    &old(self).indicator,
                    old(self).icons.icon_spec(
                        channels@[old(shared)@.active->0 as int].target,
                    ),
                    old(shared)@.values[old(shared)@.active->0 as int] as u16,
                )
            } else {
                final(self).indicator == old(self).indicator
            },
            final(self).background.same_setup(&old(self).background),
            final(self).background.motion() == old(self).next_background(old(shared)@),
            final(self).intro_screen == if scene_of(old(shared)@) == ScreenState::INTRO {
                old(self).intro_screen.stepped()
            } else {
                old(self).intro_screen
            },
            final(self).standby_screen == if scene_of(old(shared)@) == ScreenState::STANDBY {
                old(self).standby_screen.stepped()
            } else {
                old(self).standby_screen
            },
            final(self).active_channel_screen == if scene_of(old(shared)@) == ScreenState::ACTIVE {
                old(self).active_channel_screen.stepped()
            } else {
                old(self).active_channel_screen
            },
            final(self).outro_screen == if scene_of(old(shared)@) == ScreenState::OUTRO {
                old(self).outro_screen.stepped()
            } else {
                old(self).outro_screen
            },
            final(frame).id_spec() == old(frame).id_spec(),
            final(frame).width_spec() == old(frame).width_spec(),
            final(frame).height_spec() == old(frame).height_spec(),
            forall|tx: int, ty: int|
                old(frame).contains(tx, ty) ==> final(frame).pixel(tx, ty) == old(self).frame_pixel(
                    old(shared)@,
                    channels@,
                    tx,
                    ty,
                ),
    {
        let ghost pre = *self;
        let ghost pre_shared = shared@;
        frame.clear();
        let mut state = get_screen_state(shared);
        let active_channel = get_active_channel(shared);
        if active_channel.is_none() && state == ScreenState::ACTIVE {
            state = ScreenState::STANDBY;
            shared.set_screen_state(ScreenState::STANDBY);
        } else if active_channel.is_some() && state == ScreenState::STANDBY {
            state = ScreenState::ACTIVE;
            shared.set_screen_state(ScreenState::ACTIVE);
        }
        assert(state == scene_of(pre_shared));
        match state {
            ScreenState::INTRO => {
                self.background.draw(frame, state);
                self.intro_screen.draw(frame, shared);
                if self.intro_screen.firework_time {
                    self.background.start_intro_halo(Point { x: 108, y: 20 });
                }
                assert(self.background.motion().cobwebs =~= pre.next_background(
                    pre_shared,
                ).cobwebs);
            },
            ScreenState::STANDBY => {
                self.background.draw(frame, state);
                self.standby_screen.draw(frame);
            },
            ScreenState::ACTIVE => {
                match active_channel {
                    Some(idx) => {
                        let adc: u16 = read_adc_value(shared, idx) as u16;
                        self.active_channel_screen.draw(frame, shared.active_input());
                        self.indicator.draw(frame, adc, channels[idx].target, &self.icons);
                    },
                    None => {},
                }
            },
            ScreenState::OUTRO => {
                self.outro_screen.draw(frame, shared);
            },
            ScreenState::OFF => {},
        }
    }
}

} // verus!
