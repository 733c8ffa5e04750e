use vstd::prelude::*;
use crate::config::{
    ANIM_SWITCH_MS, BULLET_H, BULLET_SLACK, BULLET_W, BULLET_Y_OFFSET, ENEMY_SPEED_MAX,
    ENEMY_SPEED_MIN, FRAME_TRAVEL, MAX_DT_MS, MAX_EXTENT, MAX_FIELD, MAX_SPEED, MIN_FIELD_H,
    MIN_FIELD_W,
    MOVEMENT_SPEED, PLAYER_H, PLAYER_W, RELOAD_MS, UNITS_PER_PX,
};
use crate::game_object::{clamp_i64, clamp_spec, GameObject, ObjView, Visual};

verus! {

/// The mode the session is in. No mode is terminal; the main menu is the
/// initial one.
#[derive(Clone, Copy, Debug, PartialEq, Eq, Structural)]
pub enum GameState {
    MainMenu,
    Playing,
    Paused,
    GameOver,
}

/// One frame's worth of input, sampled by the host loop: the monotonic
/// clock, the frame duration, and the key states. `*_pressed` are
/// edge-triggered (true only on the frame the key goes down), `*_down`
/// are level-triggered.
#[derive(Clone, Copy, Debug, PartialEq, Eq, Structural)]
pub struct FrameInput {
    pub now_ms: u64,
    pub dt_ms: i64,
    pub fire_pressed: bool,
    pub pause_pressed: bool,
    pub left_down: bool,
    pub right_down: bool,
    pub up_down: bool,
    pub down_down: bool,
    pub left_pressed: bool,
    pub right_pressed: bool,
}

impl FrameInput {
    /// A frame duration the update step accepts.
    pub open spec fn wf(self) -> bool {
        0 <= self.dt_ms <= MAX_DT_MS
    }
}

/// A burst effect to start at a destroyed enemy's position; `amount` is
/// the enemy's size rounded to whole pixels.
#[derive(Clone, Copy, Debug, PartialEq, Eq, Structural)]
pub struct Explosion {
    pub x: i64,
    pub y: i64,
    pub amount: u32,
}

/// The model of an explosion over unbounded integers.
#[verifier::ext_equal]
pub ghost struct BoomView {
    pub x: int,
    pub y: int,
    pub amount: int,
}

impl View for Explosion {
    type V = BoomView;

    open spec fn view(&self) -> BoomView {
        BoomView { x: self.x as int, y: self.y as int, amount: self.amount as int }
    }
}

/// What a frame step asks the host to do besides updating the world:
/// exit the process, play the shot sound, start burst effects, or write
/// the high score to durable storage.
#[derive(Debug)]
pub struct Effects {
    pub exit: bool,
    pub play_laser: bool,
    pub explosions: Vec<Explosion>,
    pub persist_high_score: Option<u32>,
}

/// The model of a frame's effects.
#[verifier::ext_equal]
pub ghost struct EffectsView {
    pub exit: bool,
    pub play_laser: bool,
    pub explosions: Seq<BoomView>,
    pub persist_high_score: Option<int>,
}

impl View for Effects {
    type V = EffectsView;

    open spec fn view(&self) -> EffectsView {
        EffectsView {
            exit: self.exit,
            play_laser: self.play_laser,
            explosions: self.explosions@.map_values(|e: Explosion| e@),
            persist_high_score: match self.persist_high_score {
                Some(v) => Some(v as int),
                None => None,
            },
        }
    }
}

/// The whole game state for one process: mode, entities, score and the
/// session timers. The field extents are fixed at construction.
pub struct World {
    pub state: GameState,
    pub player: GameObject,
    pub bullets: Vec<GameObject>,
    pub enemies: Vec<GameObject>,
    pub score: u32,
    pub high_score: u32,
    pub last_shot_ms: u64,
    pub last_left_ms: u64,
    pub last_right_ms: u64,
    pub field_w: i64,
    pub field_h: i64,
}

/// The model of the whole game state over unbounded integers and
/// sequences.
#[verifier::ext_equal]
pub ghost struct WorldView {
    pub state: GameState,
    pub player: ObjView,
    pub bullets: Seq<ObjView>,
    pub enemies: Seq<ObjView>,
    pub score: int,
    pub high_score: int,
    pub last_shot_ms: int,
    pub last_left_ms: int,
    pub last_right_ms: int,
    pub field_w: int,
    pub field_h: int,
}

/// The models of a vector of entities.
pub open spec fn objs(s: Seq<GameObject>) -> Seq<ObjView> {
    s.map_values(|g: GameObject| g@)
}

impl View for World {
    type V = WorldView;

    open spec fn view(&self) -> WorldView {
        WorldView {
            state: self.state,
            player: self.player@,
            bullets: objs(self.bullets@),
            enemies: objs(self.enemies@),
            score: self.score as int,
            high_score: self.high_score as int,
            last_shot_ms: self.last_shot_ms as int,
            last_left_ms: self.last_left_ms as int,
            last_right_ms: self.last_right_ms as int,
            field_w: self.field_w as int,
            field_h: self.field_h as int,
        }
    }
}

impl WorldView {
    /// The field extents a session accepts.
    pub open spec fn field_ok(self) -> bool {
        &&& MIN_FIELD_W <= self.field_w <= MAX_FIELD
        &&& MIN_FIELD_H <= self.field_h <= MAX_FIELD
    }

    /// The player is well-formed, clamped into the field with a full
    /// extent of margin on each side, and slow enough that a bullet at
    /// twice its speed is still well-formed.
    pub open spec fn player_ok(self) -> bool {
        &&& self.player.wf()
        &&& self.player.width <= self.player.x <= self.field_w - self.player.width
        &&& self.player.height <= self.player.y <= self.field_h - self.player.height
        &&& 2 * self.player.speed <= MAX_SPEED
        &&& 2 * self.player.width <= self.field_w
        &&& 2 * self.player.height <= self.field_h
    }

    /// Whether entities are known to have gone through the off-screen
    /// cull: that holds while Playing or Paused. On the frame that ends
    /// the session the cull is skipped, so in GameOver (and in the menu
    /// reached from it) positions may exceed the culled range by at most
    /// one frame's travel.
    pub open spec fn culled_tight(self) -> bool {
        self.state == GameState::Playing || self.state == GameState::Paused
    }

    /// An enemy descends through the field: spawned one extent above the
    /// top edge, removed once an extent past the bottom edge.
    pub open spec fn enemy_ok(self, e: ObjView) -> bool {
        &&& e.wf()
        &&& 0 <= e.x <= self.field_w
        &&& -e.height <= e.y
        &&& if self.culled_tight() {
            e.y < self.field_h + e.height
        } else {
            e.y < self.field_h + e.height + FRAME_TRAVEL
        }
    }

    /// A bullet ascends; it is created at the player's pre-clamp
    /// position, so its coordinates may lie outside the field by the
    /// bullet slack, and it is removed once an extent past the top edge.
    pub open spec fn bullet_ok(self, b: ObjView) -> bool {
        &&& b.wf()
        &&& -BULLET_SLACK <= b.x <= self.field_w + BULLET_SLACK
        &&& b.y <= self.field_h + BULLET_SLACK
        &&& if self.culled_tight() {
            -b.height < b.y
        } else {
            -b.height - BULLET_SLACK < b.y
        }
    }

    /// Well-formedness of the whole world: the session invariant that
    /// every update step preserves. In particular every entity's extents
    /// are positive, and the score never exceeds the high score.
    pub open spec fn wf(self) -> bool {
        &&& self.field_ok()
        &&& self.player_ok()
        &&& (forall|i: int| 0 <= i < self.enemies.len() ==> self.enemy_ok(#[trigger] self.enemies[i]))
        &&& (forall|i: int| 0 <= i < self.bullets.len() ==> self.bullet_ok(#[trigger] self.bullets[i]))
        &&& 0 <= self.score <= self.high_score <= u32::MAX
        &&& 0 <= self.last_shot_ms <= u64::MAX
        &&& 0 <= self.last_left_ms <= u64::MAX
        &&& 0 <= self.last_right_ms <= u64::MAX
    }
}

/// The player entity as a session reset places it: centered in the
/// field, idle animation.
pub open spec fn spec_reset_player(field_w: int, field_h: int) -> ObjView {
    ObjView {
        width: PLAYER_W as int,
        height: PLAYER_H as int,
        speed: MOVEMENT_SPEED as int,
        x: field_w / 2,
        y: field_h / 2,
        collided: false,
        visual: Visual::Player,
        animation_num: 0,
    }
}

/// The world as a fresh process starts it: main menu, no entities, score
/// zero, and the high score read from durable storage.
pub open spec fn spec_new_world(field_w: int, field_h: int, high_score: int) -> WorldView {
    WorldView {
        state: GameState::MainMenu,
        player: spec_reset_player(field_w, field_h),
        bullets: Seq::empty(),
        enemies: Seq::empty(),
        score: 0,
        high_score: high_score,
        last_shot_ms: 0,
        last_left_ms: 0,
        last_right_ms: 0,
        field_w: field_w,
        field_h: field_h,
    }
}

impl World {
    /// Starts a session in the main menu with the given field extents
    /// and the loaded high score.
    pub fn new(field_w: i64, field_h: i64, high_score: u32) -> (w: World)
        requires
            MIN_FIELD_W <= field_w <= MAX_FIELD,
            MIN_FIELD_H <= field_h <= MAX_FIELD,
        ensures
            w@ == spec_new_world(field_w as int, field_h as int, high_score as int),
            w@.wf(),
    {
        let w = World {
            state: GameState::MainMenu,
            player: GameObject {
                width: PLAYER_W,
                height: PLAYER_H,
                speed: MOVEMENT_SPEED,
                x: field_w / 2,
                y: field_h / 2,
                collided: false,
                visual: Visual::Player,
                animation_num: 0,
            },
            bullets: Vec::new(),
            enemies: Vec::new(),
            score: 0,
            high_score,
            last_shot_ms: 0,
            last_left_ms: 0,
            last_right_ms: 0,
            field_w,
            field_h,
        };
        proof {
            assert(objs(w.enemies@) =~= Seq::<ObjView>::empty());
            assert(objs(w.bullets@) =~= Seq::<ObjView>::empty());
            assert(w@ =~= spec_new_world(field_w as int, field_h as int, high_score as int));
        }
        w
    }
}

/// The larger of two integers.
pub open spec fn int_max(a: int, b: int) -> int {
    if a >= b {
        a
    } else {
        b
    }
}

/// An entity size in units rounded to whole pixels, halves rounding up.
/// This is the score value of a destroyed enemy.
pub open spec fn spec_rounded_px(h: int) -> int {
    (h + UNITS_PER_PX / 2) / (UNITS_PER_PX as int)
}

/// Score addition: saturates at the counter's capacity, so the score
/// never wraps and never decreases.
pub open spec fn spec_add_score(s: int, p: int) -> int {
    if s + p <= u32::MAX {
        s + p
    } else {
        u32::MAX as int
    }
}

/// The model of an optional entity.
pub open spec fn opt_obj(o: Option<GameObject>) -> Option<ObjView> {
    match o {
        Some(g) => Some(g@),
        None => None,
    }
}

/// Which animation row the player shows, given the held direction keys
/// and the debounce timers: sideways rows after the key has been held
/// past the switch time, the slight-lean rows before it, the idle row
/// otherwise. A held left key takes precedence over a held right key.
pub open spec fn spec_anim(i: FrameInput, last_right: int, last_left: int) -> int {
    let a1 = if i.right_down {
        if i.now_ms - last_right >= ANIM_SWITCH_MS {
            4int
        } else {
            3int
        }
    } else {
        0int
    };
    if i.left_down {
        if i.now_ms - last_left >= ANIM_SWITCH_MS {
            2int
        } else {
            1int
        }
    } else {
        a1
    }
}

/// The player displaced by the held direction keys over one frame.
/// Opposite keys cancel; no clamping happens here.
pub open spec fn spec_moved_player(p: ObjView, i: FrameInput) -> ObjView {
    let dx = (if i.right_down {
        p.speed * i.dt_ms
    } else {
        0int
    }) - (if i.left_down {
        p.speed * i.dt_ms
    } else {
        0int
    });
    let dy = (if i.down_down {
        p.speed * i.dt_ms
    } else {
        0int
    }) - (if i.up_down {
        p.speed * i.dt_ms
    } else {
        0int
    });
    ObjView { x: p.x + dx, y: p.y + dy, ..p }
}

/// The player bounded into the field, with a full extent of margin on
/// each side.
pub open spec fn spec_clamped_player(p: ObjView, field_w: int, field_h: int) -> ObjView {
    ObjView {
        x: clamp_spec(p.x, p.width, field_w - p.width),
        y: clamp_spec(p.y, p.height, field_h - p.height),
        ..p
    }
}

/// Whether the reload cooldown has elapsed since the last shot.
pub open spec fn spec_can_fire(last_shot: int, now: int) -> bool {
    now >= last_shot + RELOAD_MS
}

/// A fresh bullet: fixed extents, twice the player's speed, placed just
/// above the player's (pre-clamp) center.
pub open spec fn spec_new_bullet(p: ObjView) -> ObjView {
    ObjView {
        width: BULLET_W as int,
        height: BULLET_H as int,
        speed: 2 * p.speed,
        x: p.x,
        y: p.y - BULLET_Y_OFFSET,
        collided: false,
        visual: Visual::Bullet,
        animation_num: 1,
    }
}

/// An enemy advanced one frame down the field.
pub open spec fn spec_move_enemy(e: ObjView, dt: int) -> ObjView {
    ObjView { y: e.y + e.speed * dt, ..e }
}

/// A bullet advanced one frame up the field.
pub open spec fn spec_move_bullet(b: ObjView, dt: int) -> ObjView {
    ObjView { y: b.y - b.speed * dt, ..b }
}

/// Whether the player overlaps any enemy.
pub open spec fn spec_player_hit(p: ObjView, enemies: Seq<ObjView>) -> bool {
    exists|k: int| 0 <= k < enemies.len() && p.overlaps(#[trigger] enemies[k])
}

/// The off-screen cull predicate for enemies: kept while not an extent
/// past the bottom edge.
pub open spec fn enemy_on_screen(field_h: int) -> spec_fn(ObjView) -> bool {
    |e: ObjView| e.y < field_h + e.height
}

/// The off-screen cull predicate for bullets: kept while not an extent
/// past the top edge.
pub open spec fn bullet_on_screen() -> spec_fn(ObjView) -> bool {
    |b: ObjView| b.y > -b.height
}

/// The end-of-frame purge predicate: entities flagged as collided leave.
pub open spec fn not_collided() -> spec_fn(ObjView) -> bool {
    |o: ObjView| !o.collided
}

/// The running state of the pairwise collision pass against one enemy:
/// the enemy itself, the bullets, the counters and the bursts so far.
#[verifier::ext_equal]
pub ghost struct HitState {
    pub e: ObjView,
    pub bullets: Seq<ObjView>,
    pub score: int,
    pub high: int,
    pub explosions: Seq<BoomView>,
}

/// The running state of the whole collision pass.
#[verifier::ext_equal]
pub ghost struct CollideState {
    pub enemies: Seq<ObjView>,
    pub bullets: Seq<ObjView>,
    pub score: int,
    pub high: int,
    pub explosions: Seq<BoomView>,
}

/// One bullet tested against the enemy at hand: on overlap both are
/// flagged, the score grows by the enemy's rounded size, the high score
/// follows, and a burst is recorded at the enemy's position. The test
/// reads positions only, so an already flagged pair can score again —
/// the pairwise pass deliberately has no one-hit guard.
pub open spec fn spec_hit_step(st: HitState, j: int) -> HitState
    recommends
        0 <= j < st.bullets.len(),
{
    if st.bullets[j].overlaps(st.e) {
        let pts = spec_rounded_px(st.e.height);
        let score1 = spec_add_score(st.score, pts);
        HitState {
            e: st.e.flagged(),
            bullets: st.bullets.update(j, st.bullets[j].flagged()),
            score: score1,
            high: int_max(st.high, score1),
            explosions: st.explosions.push(BoomView { x: st.e.x, y: st.e.y, amount: pts }),
        }
    } else {
        st
    }
}

/// The enemy at hand tested against the bullets from index `j` on.
pub open spec fn spec_hit_loop(st: HitState, j: int) -> HitState
    decreases st.bullets.len() - j,
{
    if j < 0 || j >= st.bullets.len() {
        st
    } else {
        spec_hit_loop(spec_hit_step(st, j), j + 1)
    }
}

/// The collision pass over the enemies from index `k` on, each tested
/// against every bullet in order.
pub open spec fn spec_collide_loop(st: CollideState, k: int) -> CollideState
    decreases st.enemies.len() - k,
{
    if k < 0 || k >= st.enemies.len() {
        st
    } else {
        let h = spec_hit_loop(
            HitState {
                e: st.enemies[k],
                bullets: st.bullets,
                score: st.score,
                high: st.high,
                explosions: st.explosions,
            },
            0,
        );
        spec_collide_loop(
            CollideState {
                enemies: st.enemies.update(k, h.e),
                bullets: h.bullets,
                score: h.score,
                high: h.high,
                explosions: h.explosions,
            },
            k + 1,
        )
    }
}

/// The whole bullet-vs-enemy collision pass of one frame.
pub open spec fn spec_collide(
    enemies: Seq<ObjView>,
    bullets: Seq<ObjView>,
    score: int,
    high: int,
) -> CollideState {
    spec_collide_loop(
        CollideState { enemies, bullets, score, high, explosions: Seq::empty() },
        0,
    )
}

/// No host actions requested.
pub open spec fn spec_no_effects() -> EffectsView {
    EffectsView {
        exit: false,
        play_laser: false,
        explosions: Seq::empty(),
        persist_high_score: None,
    }
}

/// A session reset: entities cleared, score zeroed, player recentered,
/// mode set to Playing. The high score and the timers are kept.
pub open spec fn spec_reset_to_playing(v: WorldView) -> WorldView {
    WorldView {
        state: GameState::Playing,
        player: spec_reset_player(v.field_w, v.field_h),
        bullets: Seq::empty(),
        enemies: Seq::empty(),
        score: 0,
        ..v
    }
}

/// The main-menu handler: the quit key asks the host to exit; the fire
/// key starts a fresh session.
pub open spec fn spec_menu(v: WorldView, i: FrameInput) -> (WorldView, EffectsView) {
    if i.pause_pressed {
        (v, EffectsView { exit: true, ..spec_no_effects() })
    } else if i.fire_pressed {
        (spec_reset_to_playing(v), spec_no_effects())
    } else {
        (v, spec_no_effects())
    }
}

/// The paused handler: fire resumes, the pause key leaves for the main
/// menu; the pause key wins when both arrive in one frame. Entities are
/// retained untouched.
pub open spec fn spec_paused(v: WorldView, i: FrameInput) -> (WorldView, EffectsView) {
    let s1 = if i.fire_pressed {
        GameState::Playing
    } else {
        GameState::Paused
    };
    let s2 = if i.pause_pressed {
        GameState::MainMenu
    } else {
        s1
    };
    (WorldView { state: s2, ..v }, spec_no_effects())
}

/// The game-over handler: fire starts a fresh session; the pause key
/// leaves for the main menu, and wins when both arrive in one frame
/// (the reset's clearing still happens first).
pub open spec fn spec_game_over(v: WorldView, i: FrameInput) -> (WorldView, EffectsView) {
    let v1 = if i.fire_pressed {
        spec_reset_to_playing(v)
    } else {
        v
    };
    let v2 = if i.pause_pressed {
        WorldView { state: GameState::MainMenu, ..v1 }
    } else {
        v1
    };
    (v2, spec_no_effects())
}

/// The playing handler, in the frame's fixed order: player movement and
/// animation from held keys, firing under the reload cooldown, the pause
/// intent, clamping the player into the field, the optional spawn, enemy
/// and bullet movement, then collisions. If any enemy overlaps the
/// player the session ends at once: the mode becomes GameOver, the culls
/// are skipped, and the high score is sent to durable storage if the
/// session just matched a positive high score. Otherwise bullets and
/// enemies collide pairwise, off-screen and collided entities are
/// purged, and the mode honors a pause request.
pub open spec fn spec_playing(
    v: WorldView,
    i: FrameInput,
    spawned: Option<ObjView>,
) -> (WorldView, EffectsView) {
    let dt = i.dt_ms as int;
    let anim = spec_anim(i, v.last_right_ms, v.last_left_ms);
    let p1 = ObjView { animation_num: anim, ..spec_moved_player(v.player, i) };
    let lr = if i.right_pressed {
        i.now_ms as int
    } else {
        v.last_right_ms
    };
    let ll = if i.left_pressed {
        i.now_ms as int
    } else {
        v.last_left_ms
    };
    let fire = i.fire_pressed && spec_can_fire(v.last_shot_ms, i.now_ms as int);
    let bullets1 = if fire {
        v.bullets.push(spec_new_bullet(p1))
    } else {
        v.bullets
    };
    let ls = if fire {
        i.now_ms as int
    } else {
        v.last_shot_ms
    };
    let p2 = spec_clamped_player(p1, v.field_w, v.field_h);
    let enemies1 = match spawned {
        Some(e) => v.enemies.push(e),
        None => v.enemies,
    };
    let enemies2 = enemies1.map_values(|e: ObjView| spec_move_enemy(e, dt));
    let bullets2 = bullets1.map_values(|b: ObjView| spec_move_bullet(b, dt));
    let v1 = WorldView {
        player: p2,
        last_shot_ms: ls,
        last_left_ms: ll,
        last_right_ms: lr,
        ..v
    };
    if spec_player_hit(p2, enemies2) {
        (
            WorldView { state: GameState::GameOver, bullets: bullets2, enemies: enemies2, ..v1 },
            EffectsView {
                exit: false,
                play_laser: fire,
                explosions: Seq::empty(),
                persist_high_score: if v.high_score > 0 && v.score == v.high_score {
                    Some(v.high_score)
                } else {
                    None
                },
            },
        )
    } else {
        let c = spec_collide(enemies2, bullets2, v.score, v.high_score);
        let enemies3 = c.enemies.filter(enemy_on_screen(v.field_h)).filter(not_collided());
        let bullets3 = c.bullets.filter(bullet_on_screen()).filter(not_collided());
        (
            WorldView {
                state: if i.pause_pressed {
                    GameState::Paused
                } else {
                    GameState::Playing
                },
                bullets: bullets3,
                enemies: enemies3,
                score: c.score,
                high_score: c.high,
                ..v1
            },
            EffectsView {
                exit: false,
                play_laser: fire,
                explosions: c.explosions,
                persist_high_score: None,
            },
        )
    }
}

/// What a freshly spawned enemy must look like to enter the store: a
/// well-formed, unflagged enemy inside the field's width, placed exactly
/// one extent above the top edge, within the spawn speed range.
pub open spec fn spawn_ok(e: ObjView, field_w: int, field_h: int) -> bool {
    &&& e.wf()
    &&& !e.collided
    &&& 0 <= e.x <= field_w
    &&& e.y == -e.height
    &&& ENEMY_SPEED_MIN <= e.speed <= ENEMY_SPEED_MAX
}

/// Pushing an element through a filter keeps it exactly when the
/// predicate holds of it.
proof fn lemma_filter_push<A>(s: Seq<A>, x: A, pred: spec_fn(A) -> bool)
    ensures
        s.push(x).filter(pred) == (if pred(x) {
            s.filter(pred).push(x)
        } else {
            s.filter(pred)
        }),
{
    reveal(Seq::filter);
    assert(s.push(x).drop_last() =~= s);
}

/// Advances every enemy one frame down the field.
fn move_enemies(v: &mut Vec<GameObject>, dt: i64)
    requires
        0 <= dt <= MAX_DT_MS,
        forall|i: int| 0 <= i < old(v)@.len() ==> (#[trigger] old(v)@[i])@.wf(),
    ensures
        objs(final(v)@) == objs(old(v)@).map_values(|e: ObjView| spec_move_enemy(e, dt as int)),
{
    let ghost orig = v@;
    let n = v.len();
    let mut idx: usize = 0;
    while idx < n
        invariant
            n == v@.len(),
            orig.len() == n,
            0 <= idx <= n,
            0 <= dt <= MAX_DT_MS,
            forall|k: int| idx <= k < n ==> v@[k] == orig[k],
            forall|k: int| 0 <= k < idx ==> (#[trigger] v@[k])@ == spec_move_enemy(orig[k]@, dt as int),
            forall|i: int| 0 <= i < n ==> (#[trigger] orig[i])@.wf(),
        decreases n - idx,
    {
        let e = v[idx];
        proof {
            assert(0 <= e.speed * dt <= FRAME_TRAVEL) by (nonlinear_arith)
                requires
                    0 <= e.speed <= MAX_SPEED,
                    0 <= dt <= MAX_DT_MS,
            ;
        }
        let ny = e.y + e.speed * dt;
        v[idx] = GameObject { y: ny, ..e };
        idx += 1;
    }
    proof {
        assert(objs(v@) =~= objs(orig).map_values(|e: ObjView| spec_move_enemy(e, dt as int)));
    }
}

/// Advances every bullet one frame up the field.
fn move_bullets(v: &mut Vec<GameObject>, dt: i64)
    requires
        0 <= dt <= MAX_DT_MS,
        forall|i: int| 0 <= i < old(v)@.len() ==> (#[trigger] old(v)@[i])@.wf(),
    ensures
        objs(final(v)@) == objs(old(v)@).map_values(|b: ObjView| spec_move_bullet(b, dt as int)),
{
    let ghost orig = v@;
    let n = v.len();
    let mut idx: usize = 0;
    while idx < n
        invariant
            n == v@.len(),
            orig.len() == n,
            0 <= idx <= n,
            0 <= dt <= MAX_DT_MS,
            forall|k: int| idx <= k < n ==> v@[k] == orig[k],
            forall|k: int| 0 <= k < idx ==> (#[trigger] v@[k])@ == spec_move_bullet(orig[k]@, dt as int),
            forall|i: int| 0 <= i < n ==> (#[trigger] orig[i])@.wf(),
        decreases n - idx,
    {
        let b = v[idx];
        proof {
            assert(0 <= b.speed * dt <= FRAME_TRAVEL) by (nonlinear_arith)
                requires
                    0 <= b.speed <= MAX_SPEED,
                    0 <= dt <= MAX_DT_MS,
            ;
        }
        let ny = b.y - b.speed * dt;
        v[idx] = GameObject { y: ny, ..b };
        idx += 1;
    }
    proof {
        assert(objs(v@) =~= objs(orig).map_values(|b: ObjView| spec_move_bullet(b, dt as int)));
    }
}

/// Whether any enemy overlaps the player.
fn any_enemy_hits_player(p: &GameObject, enemies: &Vec<GameObject>) -> (r: bool)
    requires
        p@.wf(),
        forall|i: int| 0 <= i < enemies@.len() ==> (#[trigger] enemies@[i])@.wf(),
    ensures
        r == spec_player_hit(p@, objs(enemies@)),
{
    let n = enemies.len();
    let mut idx: usize = 0;
    while idx < n
        invariant
            n == enemies@.len(),
            0 <= idx <= n,
            p@.wf(),
            forall|i: int| 0 <= i < n ==> (#[trigger] enemies@[i])@.wf(),
            forall|k: int| 0 <= k < idx ==> !p@.overlaps((#[trigger] enemies@[k])@),
        decreases n - idx,
    {
        if p.collides_with(&enemies[idx]) {
            proof {
                assert(objs(enemies@)[idx as int] == enemies@[idx as int]@);
            }
            return true;
        }
        idx += 1;
    }
    proof {
        assert forall|k: int| 0 <= k < objs(enemies@).len() implies !p@.overlaps(
            #[trigger] objs(enemies@)[k],
        ) by {
            assert(objs(enemies@)[k] == enemies@[k]@);
        }
    }
    false
}

/// Removes the enemies that have left past the bottom edge by more than
/// their own extent.
fn cull_enemies_offscreen(v: &mut Vec<GameObject>, field_h: i64)
    requires
        MIN_FIELD_H <= field_h <= MAX_FIELD,
        forall|i: int|
            0 <= i < old(v)@.len() ==> 0 < (#[trigger] old(v)@[i])@.height <= MAX_EXTENT,
    ensures
        objs(final(v)@) == objs(old(v)@).filter(enemy_on_screen(field_h as int)),
{
    let ghost orig = v@;
    let ghost pred = enemy_on_screen(field_h as int);
    let mut out: Vec<GameObject> = Vec::new();
    let n = v.len();
    let mut idx: usize = 0;
    while idx < n
        invariant
            v@ == orig,
            n == orig.len(),
            0 <= idx <= n,
            MIN_FIELD_H <= field_h <= MAX_FIELD,
            pred == enemy_on_screen(field_h as int),
            forall|i: int| 0 <= i < n ==> 0 < (#[trigger] orig[i])@.height <= MAX_EXTENT,
            objs(out@) == objs(orig.subrange(0, idx as int)).filter(pred),
        decreases n - idx,
    {
        let ghost pre_out = objs(out@);
        let e = v[idx];
        if e.y < field_h + e.height {
            out.push(e);
        }
        proof {
            assert(orig.subrange(0, idx as int + 1) =~= orig.subrange(0, idx as int).push(
                orig[idx as int],
            ));
            assert(objs(orig.subrange(0, idx as int + 1)) =~= objs(
                orig.subrange(0, idx as int),
            ).push(orig[idx as int]@));
            lemma_filter_push(objs(orig.subrange(0, idx as int)), orig[idx as int]@, pred);
            assert(pred(orig[idx as int]@) == (e.y < field_h + e.height));
            if e.y < field_h + e.height {
                assert(objs(out@) =~= pre_out.push(e@));
            }
        }
        idx += 1;
    }
    proof {
        assert(orig.subrange(0, n as int) =~= orig);
    }
    *v = out;
}

/// Removes the bullets that have left past the top edge by more than
/// their own extent.
fn cull_bullets_offscreen(v: &mut Vec<GameObject>)
    requires
        forall|i: int|
            0 <= i < old(v)@.len() ==> 0 < (#[trigger] old(v)@[i])@.height <= MAX_EXTENT,
    ensures
        objs(final(v)@) == objs(old(v)@).filter(bullet_on_screen()),
{
    let ghost orig = v@;
    let ghost pred = bullet_on_screen();
    let mut out: Vec<GameObject> = Vec::new();
    let n = v.len();
    let mut idx: usize = 0;
    while idx < n
        invariant
            v@ == orig,
            n == orig.len(),
            0 <= idx <= n,
            pred == bullet_on_screen(),
            forall|i: int| 0 <= i < n ==> 0 < (#[trigger] orig[i])@.height <= MAX_EXTENT,
            objs(out@) == objs(orig.subrange(0, idx as int)).filter(pred),
        decreases n - idx,
    {
        let ghost pre_out = objs(out@);
        let b = v[idx];
        if b.y > -b.height {
            out.push(b);
        }
        proof {
            assert(orig.subrange(0, idx as int + 1) =~= orig.subrange(0, idx as int).push(
                orig[idx as int],
            ));
            assert(objs(orig.subrange(0, idx as int + 1)) =~= objs(
                orig.subrange(0, idx as int),
            ).push(orig[idx as int]@));
            lemma_filter_push(objs(orig.subrange(0, idx as int)), orig[idx as int]@, pred);
            assert(pred(orig[idx as int]@) == (b.y > -b.height));
            if b.y > -b.height {
                assert(objs(out@) =~= pre_out.push(b@));
            }
        }
        idx += 1;
    }
    proof {
        assert(orig.subrange(0, n as int) =~= orig);
    }
    *v = out;
}

/// Removes the entities flagged as collided.
fn cull_collided(v: &mut Vec<GameObject>)
    ensures
        objs(final(v)@) == objs(old(v)@).filter(not_collided()),
{
    let ghost orig = v@;
    let ghost pred = not_collided();
    let mut out: Vec<GameObject> = Vec::new();
    let n = v.len();
    let mut idx: usize = 0;
    while idx < n
        invariant
            v@ == orig,
            n == orig.len(),
            0 <= idx <= n,
            pred == not_collided(),
            objs(out@) == objs(orig.subrange(0, idx as int)).filter(pred),
        decreases n - idx,
    {
        let ghost pre_out = objs(out@);
        let e = v[idx];
        if !e.collided {
            out.push(e);
        }
        proof {
            assert(orig.subrange(0, idx as int + 1) =~= orig.subrange(0, idx as int).push(
                orig[idx as int],
            ));
            assert(objs(orig.subrange(0, idx as int + 1)) =~= objs(
                orig.subrange(0, idx as int),
            ).push(orig[idx as int]@));
            lemma_filter_push(objs(orig.subrange(0, idx as int)), orig[idx as int]@, pred);
            assert(pred(orig[idx as int]@) == !e.collided);
            if !e.collided {
                assert(objs(out@) =~= pre_out.push(e@));
            }
        }
        idx += 1;
    }
    proof {
        assert(orig.subrange(0, n as int) =~= orig);
    }
    *v = out;
}

/// An entity size in units rounded to whole pixels.
fn rounded_px_u32(h: i64) -> (r: u32)
    requires
        0 < h <= MAX_EXTENT,
    ensures
        r as int == spec_rounded_px(h as int),
{
    ((h + 500) / 1000) as u32
}

/// Saturating score addition.
fn add_score_u32(s: u32, p: u32) -> (r: u32)
    ensures
        r as int == spec_add_score(s as int, p as int),
{
    if p <= u32::MAX - s {
        s + p
    } else {
        u32::MAX
    }
}

/// The larger of two counters.
fn max_u32(a: u32, b: u32) -> (r: u32)
    ensures
        r as int == int_max(a as int, b as int),
{
    if a >= b {
        a
    } else {
        b
    }
}

/// The models of a vector of explosions.
pub open spec fn booms(s: Seq<Explosion>) -> Seq<BoomView> {
    s.map_values(|e: Explosion| e@)
}

/// The pairwise bullet-vs-enemy pass: every enemy is tested against
/// every bullet in order; each overlapping pair flags both entities,
/// scores the enemy's rounded size, pulls the high score along, and
/// records a burst at the enemy's position.
fn resolve_collisions(
    enemies: &mut Vec<GameObject>,
    bullets: &mut Vec<GameObject>,
    score: &mut u32,
    high_score: &mut u32,
) -> (explosions: Vec<Explosion>)
    requires
        forall|i: int| 0 <= i < old(enemies)@.len() ==> (#[trigger] old(enemies)@[i])@.wf(),
        forall|i: int| 0 <= i < old(bullets)@.len() ==> (#[trigger] old(bullets)@[i])@.wf(),
        *old(score) <= *old(high_score),
    ensures
        ({
            let c = spec_collide(
                objs(old(enemies)@),
                objs(old(bullets)@),
                *old(score) as int,
                *old(high_score) as int,
            );
            &&& objs(final(enemies)@) == c.enemies
            &&& objs(final(bullets)@) == c.bullets
            &&& *final(score) as int == c.score
            &&& *final(high_score) as int == c.high
            &&& booms(explosions@) == c.explosions
        }),
        *final(score) <= *final(high_score),
{
    let ghost st0 = CollideState {
        enemies: objs(enemies@),
        bullets: objs(bullets@),
        score: *score as int,
        high: *high_score as int,
        explosions: Seq::empty(),
    };
    let mut explosions: Vec<Explosion> = Vec::new();
    let en = enemies.len();
    let bn = bullets.len();
    let mut k: usize = 0;
    proof {
        assert(booms(explosions@) =~= Seq::<BoomView>::empty());
    }
    while k < en
        invariant
            en == enemies@.len(),
            bn == bullets@.len(),
            0 <= k <= en,
            st0.enemies.len() == en,
            st0.bullets.len() == bn,
            forall|i: int| 0 <= i < en ==> (#[trigger] enemies@[i])@.wf(),
            forall|i: int| 0 <= i < bn ==> (#[trigger] bullets@[i])@.wf(),
            *score <= *high_score,
            spec_collide_loop(st0, 0) == spec_collide_loop(
                CollideState {
                    enemies: objs(enemies@),
                    bullets: objs(bullets@),
                    score: *score as int,
                    high: *high_score as int,
                    explosions: booms(explosions@),
                },
                k as int,
            ),
        decreases en - k,
    {
        let ghost outer_st = CollideState {
            enemies: objs(enemies@),
            bullets: objs(bullets@),
            score: *score as int,
            high: *high_score as int,
            explosions: booms(explosions@),
        };
        let ghost h0 = HitState {
            e: outer_st.enemies[k as int],
            bullets: outer_st.bullets,
            score: outer_st.score,
            high: outer_st.high,
            explosions: outer_st.explosions,
        };
        let mut j: usize = 0;
        while j < bn
            invariant
                en == enemies@.len(),
                bn == bullets@.len(),
                0 <= k < en,
                0 <= j <= bn,
                forall|i: int| 0 <= i < en ==> (#[trigger] enemies@[i])@.wf(),
                forall|i: int| 0 <= i < bn ==> (#[trigger] bullets@[i])@.wf(),
                forall|m: int| 0 <= m < en && m != k ==> (#[trigger] enemies@[m])@ == outer_st.enemies[m],
                *score <= *high_score,
                spec_hit_loop(h0, 0) == spec_hit_loop(
                    HitState {
                        e: enemies@[k as int]@,
                        bullets: objs(bullets@),
                        score: *score as int,
                        high: *high_score as int,
                        explosions: booms(explosions@),
                    },
                    j as int,
                ),
            decreases bn - j,
        {
            let ghost cur_h = HitState {
                e: enemies@[k as int]@,
                bullets: objs(bullets@),
                score: *score as int,
                high: *high_score as int,
                explosions: booms(explosions@),
            };
            let hit = bullets[j].collides_with(&enemies[k]);
            proof {
                assert(cur_h.bullets[j as int] == bullets@[j as int]@);
                assert(hit == cur_h.bullets[j as int].overlaps(cur_h.e));
            }
            if hit {
                let b = bullets[j];
                bullets[j] = GameObject { collided: true, ..b };
                let e = enemies[k];
                enemies[k] = GameObject { collided: true, ..e };
                let pts = rounded_px_u32(e.height);
                *score = add_score_u32(*score, pts);
                *high_score = max_u32(*high_score, *score);
                explosions.push(Explosion { x: e.x, y: e.y, amount: pts });
                proof {
                    let stepped = spec_hit_step(cur_h, j as int);
                    assert(objs(bullets@) =~= cur_h.bullets.update(
                        j as int,
                        cur_h.bullets[j as int].flagged(),
                    ));
                    assert(booms(explosions@) =~= cur_h.explosions.push(
                        BoomView {
                            x: e@.x,
                            y: e@.y,
                            amount: spec_rounded_px(e@.height),
                        },
                    ));
                    assert(enemies@[k as int]@ =~= cur_h.e.flagged());
                    assert(stepped =~= (HitState {
                        e: enemies@[k as int]@,
                        bullets: objs(bullets@),
                        score: *score as int,
                        high: *high_score as int,
                        explosions: booms(explosions@),
                    }));
                }
            } else {
                proof {
                    assert(spec_hit_step(cur_h, j as int) == cur_h);
                }
            }
            j += 1;
        }
        proof {
            let done_h = HitState {
                e: enemies@[k as int]@,
                bullets: objs(bullets@),
                score: *score as int,
                high: *high_score as int,
                explosions: booms(explosions@),
            };
            assert(spec_hit_loop(done_h, bn as int) == done_h);
            assert(spec_hit_loop(h0, 0) == done_h);
            let next_st = CollideState {
                enemies: objs(enemies@),
                bullets: objs(bullets@),
                score: *score as int,
                high: *high_score as int,
                explosions: booms(explosions@),
            };
            assert(objs(enemies@) =~= outer_st.enemies.update(k as int, done_h.e));
            assert(spec_collide_loop(outer_st, k as int) == spec_collide_loop(
                next_st,
                k as int + 1,
            ));
        }
        k += 1;
    }
    proof {
        let done_st = CollideState {
            enemies: objs(enemies@),
            bullets: objs(bullets@),
            score: *score as int,
            high: *high_score as int,
            explosions: booms(explosions@),
        };
        assert(spec_collide_loop(done_st, en as int) == done_st);
        assert(spec_collide_loop(st0, 0) == done_st);
    }
    explosions
}

/// The collision pass changes an entity at most by raising its flag:
/// position, extents, speed and looks are untouched.
pub open spec fn same_core(a: ObjView, b: ObjView) -> bool {
    b == a || b == a.flagged()
}

/// What the inner collision loop can do to its state: bullet count kept,
/// entities at most flagged, counters only growing, the score capped and
/// never above the high score.
pub proof fn lemma_hit_loop_props(st: HitState, j: int)
    requires
        0 <= st.score <= st.high <= u32::MAX,
        0 < st.e.height,
    ensures
        ({
            let r = spec_hit_loop(st, j);
            &&& r.bullets.len() == st.bullets.len()
            &&& same_core(st.e, r.e)
            &&& (forall|m: int| 0 <= m < st.bullets.len() ==> same_core(st.bullets[m], #[trigger] r.bullets[m]))
            &&& st.score <= r.score
            &&& st.high <= r.high
            &&& 0 <= r.score <= r.high <= u32::MAX
        }),
    decreases st.bullets.len() - j,
{
    if j < 0 || j >= st.bullets.len() {
    } else {
        let mid = spec_hit_step(st, j);
        lemma_hit_loop_props(mid, j + 1);
    }
}

/// What the whole collision pass can do to its state: entity counts
/// kept, entities at most flagged, counters only growing, the score
/// capped and never above the high score.
pub proof fn lemma_collide_loop_props(st: CollideState, k: int)
    requires
        0 <= st.score <= st.high <= u32::MAX,
        forall|m: int| 0 <= m < st.enemies.len() ==> 0 < (#[trigger] st.enemies[m]).height,
    ensures
        ({
            let r = spec_collide_loop(st, k);
            &&& r.enemies.len() == st.enemies.len()
            &&& r.bullets.len() == st.bullets.len()
            &&& (forall|m: int| 0 <= m < st.enemies.len() ==> same_core(st.enemies[m], #[trigger] r.enemies[m]))
            &&& (forall|m: int| 0 <= m < st.bullets.len() ==> same_core(st.bullets[m], #[trigger] r.bullets[m]))
            &&& st.score <= r.score
            &&& st.high <= r.high
            &&& 0 <= r.score <= r.high <= u32::MAX
        }),
    decreases st.enemies.len() - k,
{
    if k < 0 || k >= st.enemies.len() {
    } else {
        let h0 = HitState {
            e: st.enemies[k],
            bullets: st.bullets,
            score: st.score,
            high: st.high,
            explosions: st.explosions,
        };
        lemma_hit_loop_props(h0, 0);
        let h = spec_hit_loop(h0, 0);
        let st1 = CollideState {
            enemies: st.enemies.update(k, h.e),
            bullets: h.bullets,
            score: h.score,
            high: h.high,
            explosions: h.explosions,
        };
        lemma_collide_loop_props(st1, k + 1);
    }
}

/// Every element of a filtered sequence satisfies the predicate and
/// occurs in the original sequence.
pub proof fn lemma_filter_elems(s: Seq<ObjView>, p: spec_fn(ObjView) -> bool)
    ensures
        forall|j: int| 0 <= j < s.filter(p).len() ==> p(#[trigger] s.filter(p)[j]),
        forall|j: int| 0 <= j < s.filter(p).len() ==> s.contains(#[trigger] s.filter(p)[j]),
{
    assert forall|j: int| 0 <= j < s.filter(p).len() implies p(#[trigger] s.filter(p)[j]) by {
        s.lemma_filter_pred(p, j);
    }
    assert forall|j: int| 0 <= j < s.filter(p).len() implies s.contains(
        #[trigger] s.filter(p)[j],
    ) by {
        let x = s.filter(p)[j];
        assert(s.filter(p).contains(x));
        s.lemma_filter_contains_rev(p, x);
    }
}

/// A session reset yields a well-formed world.
pub proof fn lemma_reset_wf(v: WorldView)
    requires
        v.field_ok(),
        0 <= v.high_score <= u32::MAX,
        0 <= v.last_shot_ms <= u64::MAX,
        0 <= v.last_left_ms <= u64::MAX,
        0 <= v.last_right_ms <= u64::MAX,
    ensures
        spec_reset_to_playing(v).wf(),
{
    let r = spec_reset_to_playing(v);
    assert(r.player.width <= r.player.x <= r.field_w - r.player.width);
    assert(r.player.height <= r.player.y <= r.field_h - r.player.height);
}

/// Every update step preserves well-formedness of the world; in
/// particular every entity's extents stay positive through every frame.
pub proof fn lemma_step_preserves_wf(v: WorldView, i: FrameInput, spawned: Option<ObjView>)
    requires
        v.wf(),
        i.wf(),
        match spawned {
            Some(e) => spawn_ok(e, v.field_w, v.field_h),
            None => true,
        },
    ensures
        spec_step(v, i, spawned).0.wf(),
{
    match v.state {
        GameState::MainMenu => {
            if i.pause_pressed {
            } else if i.fire_pressed {
                lemma_reset_wf(v);
            }
        },
        GameState::Paused => {
        },
        GameState::GameOver => {
            if i.fire_pressed {
                lemma_reset_wf(v);
            }
        },
        GameState::Playing => {
            lemma_playing_preserves_wf(v, i, spawned);
        },
    }
}

/// The playing handler preserves well-formedness.
#[verifier::rlimit(100)]
#[verifier::spinoff_prover]
proof fn lemma_playing_preserves_wf(v: WorldView, i: FrameInput, spawned: Option<ObjView>)
    requires
        v.wf(),
        i.wf(),
        v.state == GameState::Playing,
        match spawned {
            Some(e) => spawn_ok(e, v.field_w, v.field_h),
            None => true,
        },
    ensures
        spec_playing(v, i, spawned).0.wf(),
{
    let dt = i.dt_ms as int;
    let w2 = spec_playing(v, i, spawned).0;
    let p0 = v.player;
    let p1 = ObjView { animation_num: spec_anim(i, v.last_right_ms, v.last_left_ms), ..spec_moved_player(p0, i) };
    let p2 = spec_clamped_player(p1, v.field_w, v.field_h);
    assert(0 <= p0.speed * dt <= FRAME_TRAVEL) by (nonlinear_arith)
        requires
            0 <= p0.speed <= MAX_SPEED,
            0 <= dt <= MAX_DT_MS,
    ;
    assert(p0.x - 2 * FRAME_TRAVEL <= p1.x <= p0.x + 2 * FRAME_TRAVEL);
    assert(p0.y - 2 * FRAME_TRAVEL <= p1.y <= p0.y + 2 * FRAME_TRAVEL);
    assert(p2.wf());
    assert(p2.width <= p2.x <= v.field_w - p2.width);
    assert(p2.height <= p2.y <= v.field_h - p2.height);

    let fire = i.fire_pressed && spec_can_fire(v.last_shot_ms, i.now_ms as int);
    let nb = spec_new_bullet(p1);
    let bullets1 = if fire {
        v.bullets.push(nb)
    } else {
        v.bullets
    };
    assert(fire ==> nb.wf() && -BULLET_SLACK + FRAME_TRAVEL <= nb.x <= v.field_w + BULLET_SLACK
        && -nb.height - BULLET_SLACK + 2 * FRAME_TRAVEL < nb.y <= v.field_h + BULLET_SLACK);
    let enemies1 = match spawned {
        Some(e) => v.enemies.push(e),
        None => v.enemies,
    };
    let enemies2 = enemies1.map_values(|e: ObjView| spec_move_enemy(e, dt));
    let bullets2 = bullets1.map_values(|b: ObjView| spec_move_bullet(b, dt));

    assert forall|m: int| 0 <= m < enemies2.len() implies ({
        let e = #[trigger] enemies2[m];
        &&& e.wf()
        &&& 0 <= e.x <= v.field_w
        &&& -e.height <= e.y
        &&& e.y < v.field_h + e.height + FRAME_TRAVEL
    }) by {
        let e0 = enemies1[m];
        assert(e0.wf() && 0 <= e0.x <= v.field_w && -e0.height <= e0.y && e0.y < v.field_h
            + e0.height);
        assert(0 <= e0.speed * dt <= FRAME_TRAVEL) by (nonlinear_arith)
            requires
                0 <= e0.speed <= MAX_SPEED,
                0 <= dt <= MAX_DT_MS,
        ;
    }
    assert forall|m: int| 0 <= m < bullets2.len() implies ({
        let b = #[trigger] bullets2[m];
        &&& b.wf()
        &&& -BULLET_SLACK <= b.x <= v.field_w + BULLET_SLACK
        &&& -b.height - BULLET_SLACK < b.y <= v.field_h + BULLET_SLACK
    }) by {
        let b0 = bullets1[m];
        assert(b0.wf() && -BULLET_SLACK <= b0.x <= v.field_w + BULLET_SLACK && -b0.height
            - BULLET_SLACK + 2 * FRAME_TRAVEL < b0.y <= v.field_h + BULLET_SLACK);
        assert(0 <= b0.speed * dt <= FRAME_TRAVEL) by (nonlinear_arith)
            requires
                0 <= b0.speed <= MAX_SPEED,
                0 <= dt <= MAX_DT_MS,
        ;
    }

    if spec_player_hit(p2, enemies2) {
        assert(w2.state == GameState::GameOver);
        assert(w2.wf());
    } else {
        let c = spec_collide(enemies2, bullets2, v.score, v.high_score);
        lemma_collide_loop_props(
            CollideState {
                enemies: enemies2,
                bullets: bullets2,
                score: v.score,
                high: v.high_score,
                explosions: Seq::empty(),
            },
            0,
        );
        let ep = enemy_on_screen(v.field_h);
        let bp = bullet_on_screen();
        let np = not_collided();
        lemma_filter_elems(c.enemies, ep);
        lemma_filter_elems(c.enemies.filter(ep), np);
        lemma_filter_elems(c.bullets, bp);
        lemma_filter_elems(c.bullets.filter(bp), np);
        let enemies3 = c.enemies.filter(ep).filter(np);
        let bullets3 = c.bullets.filter(bp).filter(np);
        assert forall|m: int| 0 <= m < enemies3.len() implies w2.enemy_ok(#[trigger] w2.enemies[m]) by {
            let e = enemies3[m];
            assert(c.enemies.filter(ep).contains(e));
            c.enemies.lemma_filter_contains_rev(ep, e);
            let q = choose|q: int| 0 <= q < c.enemies.len() && c.enemies[q] == e;
            assert(same_core(enemies2[q], e));
            assert(ep(e));
        }
        assert forall|m: int| 0 <= m < bullets3.len() implies w2.bullet_ok(#[trigger] w2.bullets[m]) by {
            let b = bullets3[m];
            assert(c.bullets.filter(bp).contains(b));
            c.bullets.lemma_filter_contains_rev(bp, b);
            let q = choose|q: int| 0 <= q < c.bullets.len() && c.bullets[q] == b;
            assert(same_core(bullets2[q], b));
            assert(bp(b));
        }
        assert(w2.wf());
    }
}

/// An optional spawn the step accepts: either nothing, or an enemy that
/// may enter the store.
pub open spec fn session_spawn_ok(spawned: Option<ObjView>, field_w: int, field_h: int) -> bool {
    match spawned {
        Some(e) => spawn_ok(e, field_w, field_h),
        None => true,
    }
}

/// One frame of the whole state machine: exactly one mode's handler
/// runs.
pub open spec fn spec_step(
    v: WorldView,
    i: FrameInput,
    spawned: Option<ObjView>,
) -> (WorldView, EffectsView) {
    match v.state {
        GameState::MainMenu => spec_menu(v, i),
        GameState::Playing => spec_playing(v, i, spawned),
        GameState::Paused => spec_paused(v, i),
        GameState::GameOver => spec_game_over(v, i),
    }
}

/// An effects value asking the host for nothing.
fn no_effects() -> (e: Effects)
    ensures
        e@ == spec_no_effects(),
{
    let e = Effects {
        exit: false,
        play_laser: false,
        explosions: Vec::new(),
        persist_high_score: None,
    };
    proof {
        assert(e@.explosions =~= Seq::<BoomView>::empty());
        assert(e@ =~= spec_no_effects());
    }
    e
}

/// Clears the entities, zeroes the score, recenters the player and
/// enters Playing; the high score and the timers are kept.
fn reset_session(w: &mut World)
    requires
        old(w)@.field_ok(),
    ensures
        final(w)@ == spec_reset_to_playing(old(w)@),
{
    w.enemies.clear();
    w.bullets.clear();
    w.player = GameObject {
        width: PLAYER_W,
        height: PLAYER_H,
        speed: MOVEMENT_SPEED,
        x: w.field_w / 2,
        y: w.field_h / 2,
        collided: false,
        visual: Visual::Player,
        animation_num: 0,
    };
    w.score = 0;
    w.state = GameState::Playing;
    proof {
        assert(objs(w.enemies@) =~= Seq::<ObjView>::empty());
        assert(objs(w.bullets@) =~= Seq::<ObjView>::empty());
        assert(w@ =~= spec_reset_to_playing(old(w)@));
    }
}

impl World {
    /// The main-menu handler: the quit key asks the host to exit the
    /// process; the fire key starts a fresh session.
    pub fn step_main_menu(&mut self, input: FrameInput) -> (eff: Effects)
        requires
            old(self)@.wf(),
            input.wf(),
            old(self)@.state == GameState::MainMenu,
        ensures
            final(self)@ == spec_menu(old(self)@, input).0,
            eff@ == spec_menu(old(self)@, input).1,
            final(self)@.wf(),
    {
        proof {
            lemma_step_preserves_wf(self@, input, None);
        }
        if input.pause_pressed {
            let eff = Effects {
                exit: true,
                play_laser: false,
                explosions: Vec::new(),
                persist_high_score: None,
            };
            proof {
                assert(eff@.explosions =~= Seq::<BoomView>::empty());
                assert(eff@ =~= (EffectsView { exit: true, ..spec_no_effects() }));
            }
            eff
        } else if input.fire_pressed {
            reset_session(self);
            no_effects()
        } else {
            no_effects()
        }
    }

    /// The playing handler, in the frame's fixed order: player movement
    /// and animation from held keys, firing under the reload cooldown,
    /// clamping the player into the field, the optional spawn, enemy and
    /// bullet movement, the player-vs-enemy test, then the pairwise
    /// bullet-vs-enemy pass and the culls. A caller draws `spawned`
    /// beforehand (see `roll_spawn`); collision testing happens on
    /// post-move, pre-cull positions of the same frame.
    #[verifier::rlimit(100)]
    #[verifier::spinoff_prover]
    pub fn step_playing(&mut self, input: FrameInput, spawned: Option<GameObject>) -> (eff:
        Effects)
        requires
            old(self)@.wf(),
            input.wf(),
            old(self)@.state == GameState::Playing,
            match spawned {
                Some(g) => spawn_ok(g@, old(self)@.field_w, old(self)@.field_h),
                None => true,
            },
        ensures
            final(self)@ == spec_playing(old(self)@, input, opt_obj(spawned)).0,
            eff@ == spec_playing(old(self)@, input, opt_obj(spawned)).1,
            final(self)@.wf(),
    {
        proof {
            lemma_step_preserves_wf(self@, input, opt_obj(spawned));
        }
        let ghost v = self@;

        // Animation selection from the held keys and the debounce timers.
        let mut anim: usize = 0;
        if input.right_down {
            anim = if input.now_ms >= ANIM_SWITCH_MS && input.now_ms - ANIM_SWITCH_MS
                >= self.last_right_ms {
                4
            } else {
                3
            };
        }
        if input.left_down {
            anim = if input.now_ms >= ANIM_SWITCH_MS && input.now_ms - ANIM_SWITCH_MS
                >= self.last_left_ms {
                2
            } else {
                1
            };
        }
        proof {
            assert(anim as int == spec_anim(input, v.last_right_ms, v.last_left_ms));
        }

        // Input-driven movement; opposite keys cancel.
        proof {
            assert(0 <= v.player.speed * (input.dt_ms as int) <= FRAME_TRAVEL)
                by (nonlinear_arith)
                requires
                    0 <= v.player.speed <= MAX_SPEED,
                    0 <= input.dt_ms <= MAX_DT_MS,
            ;
        }
        let d = self.player.speed * input.dt_ms;
        let mut px = self.player.x;
        let mut py = self.player.y;
        if input.right_down {
            px = px + d;
        }
        if input.left_down {
            px = px - d;
        }
        if input.down_down {
            py = py + d;
        }
        if input.up_down {
            py = py - d;
        }
        self.player = GameObject { x: px, y: py, animation_num: anim, ..self.player };
        if input.right_pressed {
            self.last_right_ms = input.now_ms;
        }
        if input.left_pressed {
            self.last_left_ms = input.now_ms;
        }
        let ghost p1 = self.player@;
        proof {
            assert(p1 =~= (ObjView {
                animation_num: anim as int,
                ..spec_moved_player(v.player, input)
            }));
        }

        // Firing under the reload cooldown; the bullet starts at the
        // player's pre-clamp position.
        let can_fire = input.fire_pressed && input.now_ms >= RELOAD_MS && input.now_ms - RELOAD_MS
            >= self.last_shot_ms;
        proof {
            assert(can_fire == (input.fire_pressed && spec_can_fire(
                v.last_shot_ms,
                input.now_ms as int,
            )));
        }
        let ghost bullets_pre = objs(self.bullets@);
        if can_fire {
            let b = GameObject {
                width: BULLET_W,
                height: BULLET_H,
                speed: 2 * self.player.speed,
                x: self.player.x,
                y: self.player.y - BULLET_Y_OFFSET,
                collided: false,
                visual: Visual::Bullet,
                animation_num: 1,
            };
            self.bullets.push(b);
            self.last_shot_ms = input.now_ms;
            proof {
                assert(b@ =~= spec_new_bullet(p1));
                assert(objs(self.bullets@) =~= bullets_pre.push(spec_new_bullet(p1)));
            }
        }
        let ghost bullets1 = objs(self.bullets@);

        // Clamp the player into the field.
        let cx = clamp_i64(self.player.x, self.player.width, self.field_w - self.player.width);
        let cy = clamp_i64(self.player.y, self.player.height, self.field_h - self.player.height);
        self.player = GameObject { x: cx, y: cy, ..self.player };
        proof {
            assert(self.player@ =~= spec_clamped_player(p1, v.field_w, v.field_h));
        }

        // The optional spawn enters before movement, so it advances this
        // same frame.
        let ghost enemies_pre = objs(self.enemies@);
        match spawned {
            Some(e) => {
                self.enemies.push(e);
                proof {
                    assert(objs(self.enemies@) =~= enemies_pre.push(e@));
                }
            },
            None => {},
        }
        let ghost enemies1 = objs(self.enemies@);

        // Movement.
        proof {
            assert forall|m: int| 0 <= m < self.enemies@.len() implies (
            #[trigger] self.enemies@[m])@.wf() by {
                assert(enemies1[m] == self.enemies@[m]@);
            }
            assert forall|m: int| 0 <= m < self.bullets@.len() implies (
            #[trigger] self.bullets@[m])@.wf() by {
                assert(bullets1[m] == self.bullets@[m]@);
            }
        }
        move_enemies(&mut self.enemies, input.dt_ms);
        move_bullets(&mut self.bullets, input.dt_ms);
        let ghost enemies2 = objs(self.enemies@);
        let ghost bullets2 = objs(self.bullets@);
        let ghost dt = input.dt_ms as int;

        proof {
            assert forall|m: int| 0 <= m < self.enemies@.len() implies (
            #[trigger] self.enemies@[m])@.wf() by {
                let e0 = enemies1[m];
                assert(enemies2[m] == spec_move_enemy(e0, dt));
                assert(0 <= e0.speed * dt <= FRAME_TRAVEL) by (nonlinear_arith)
                    requires
                        0 <= e0.speed <= MAX_SPEED,
                        0 <= dt <= MAX_DT_MS,
                ;
                assert(self.enemies@[m]@ == enemies2[m]);
            }
            assert forall|m: int| 0 <= m < self.bullets@.len() implies (
            #[trigger] self.bullets@[m])@.wf() by {
                let b0 = bullets1[m];
                assert(bullets2[m] == spec_move_bullet(b0, dt));
                assert(0 <= b0.speed * dt <= FRAME_TRAVEL) by (nonlinear_arith)
                    requires
                        0 <= b0.speed <= MAX_SPEED,
                        0 <= dt <= MAX_DT_MS,
                ;
                assert(self.bullets@[m]@ == bullets2[m]);
            }
        }

        // One overlap with the player ends the session at once; the
        // culls are skipped, and a fresh positive high score is sent to
        // durable storage exactly here, on the transition.
        if any_enemy_hits_player(&self.player, &self.enemies) {
            self.state = GameState::GameOver;
            let persist = if self.high_score > 0 && self.score == self.high_score {
                Some(self.high_score)
            } else {
                None
            };
            let eff = Effects {
                exit: false,
                play_laser: can_fire,
                explosions: Vec::new(),
                persist_high_score: persist,
            };
            proof {
                assert(self@ =~= spec_playing(v, input, opt_obj(spawned)).0);
                assert(eff@.explosions =~= Seq::<BoomView>::empty());
                assert(eff@ =~= spec_playing(v, input, opt_obj(spawned)).1);
            }
            return eff;
        }

        // The pairwise bullet-vs-enemy pass.
        let explosions = resolve_collisions(
            &mut self.enemies,
            &mut self.bullets,
            &mut self.score,
            &mut self.high_score,
        );
        let ghost c = spec_collide(enemies2, bullets2, v.score, v.high_score);

        // The culls: off-screen entities leave, then collided ones.
        proof {
            lemma_collide_loop_props(
                CollideState {
                    enemies: enemies2,
                    bullets: bullets2,
                    score: v.score,
                    high: v.high_score,
                    explosions: Seq::empty(),
                },
                0,
            );
            assert forall|m: int| 0 <= m < self.enemies@.len() implies 0 < (
            #[trigger] self.enemies@[m])@.height <= MAX_EXTENT by {
                assert(self.enemies@[m]@ == c.enemies[m]);
                assert(same_core(enemies2[m], c.enemies[m]));
            }
            assert forall|m: int| 0 <= m < self.bullets@.len() implies 0 < (
            #[trigger] self.bullets@[m])@.height <= MAX_EXTENT by {
                assert(self.bullets@[m]@ == c.bullets[m]);
                assert(same_core(bullets2[m], c.bullets[m]));
            }
        }
        cull_enemies_offscreen(&mut self.enemies, self.field_h);
        cull_bullets_offscreen(&mut self.bullets);
        cull_collided(&mut self.enemies);
        cull_collided(&mut self.bullets);

        // Honor a pause request; otherwise stay Playing.
        if input.pause_pressed {
            self.state = GameState::Paused;
        } else {
            self.state = GameState::Playing;
        }
        let eff = Effects {
            exit: false,
            play_laser: can_fire,
            explosions,
            persist_high_score: None,
        };
        proof {
            assert(self@ =~= spec_playing(v, input, opt_obj(spawned)).0);
            assert(eff@ =~= spec_playing(v, input, opt_obj(spawned)).1);
        }
        eff
    }

    /// One frame of the whole state machine: dispatches to exactly one
    /// mode's handler. `spawned` is consulted only while Playing.
    pub fn step_frame(&mut self, input: FrameInput, spawned: Option<GameObject>) -> (eff: Effects)
        requires
            old(self)@.wf(),
            input.wf(),
            old(self)@.state == GameState::Playing ==> match spawned {
                Some(g) => spawn_ok(g@, old(self)@.field_w, old(self)@.field_h),
                None => true,
            },
        ensures
            final(self)@ == spec_step(old(self)@, input, opt_obj(spawned)).0,
            eff@ == spec_step(old(self)@, input, opt_obj(spawned)).1,
            final(self)@.wf(),
    {
        match self.state {
            GameState::MainMenu => self.step_main_menu(input),
            GameState::Playing => self.step_playing(input, spawned),
            GameState::Paused => self.step_paused(input),
            GameState::GameOver => self.step_game_over(input),
        }
    }

    /// The paused handler: fire resumes, the pause key leaves for the
    /// main menu and wins when both arrive in one frame; entities are
    /// retained untouched.
    pub fn step_paused(&mut self, input: FrameInput) -> (eff: Effects)
        requires
            old(self)@.wf(),
            input.wf(),
            old(self)@.state == GameState::Paused,
        ensures
            final(self)@ == spec_paused(old(self)@, input).0,
            eff@ == spec_paused(old(self)@, input).1,
            final(self)@.wf(),
    {
        proof {
            lemma_step_preserves_wf(self@, input, None);
        }
        if input.fire_pressed {
            self.state = GameState::Playing;
        }
        if input.pause_pressed {
            self.state = GameState::MainMenu;
        }
        proof {
            assert(self@ =~= spec_paused(old(self)@, input).0);
        }
        no_effects()
    }

    /// The game-over handler: fire starts a fresh session; the pause
    /// key leaves for the main menu and wins when both arrive in one
    /// frame (the reset's clearing still happens first).
    pub fn step_game_over(&mut self, input: FrameInput) -> (eff: Effects)
        requires
            old(self)@.wf(),
            input.wf(),
            old(self)@.state == GameState::GameOver,
        ensures
            final(self)@ == spec_game_over(old(self)@, input).0,
            eff@ == spec_game_over(old(self)@, input).1,
            final(self)@.wf(),
    {
        proof {
            lemma_step_preserves_wf(self@, input, None);
        }
        if input.fire_pressed {
            reset_session(self);
        }
        if input.pause_pressed {
            self.state = GameState::MainMenu;
        }
        proof {
            assert(self@ =~= spec_game_over(old(self)@, input).0);
        }
        no_effects()
    }
}

} // verus!
