use vstd::prelude::*;
use crate::game_object::ObjView;
use crate::world::{
    bullet_on_screen, enemy_on_screen, lemma_collide_loop_props, lemma_step_preserves_wf,
    session_spawn_ok, spec_collide, spec_move_enemy, spec_playing, spec_step, CollideState,
    FrameInput, GameState, WorldView,
};

verus! {

/// One frame's stimulus: the sampled input and the spawn decision drawn
/// for that frame.
#[verifier::ext_equal]
pub ghost struct FrameStim {
    pub input: FrameInput,
    pub spawned: Option<ObjView>,
}

/// A stimulus the step accepts against a field of the given extents.
pub open spec fn stim_ok(field_w: int, field_h: int, s: FrameStim) -> bool {
    &&& s.input.wf()
    &&& session_spawn_ok(s.spawned, field_w, field_h)
}

/// The world after a sequence of frames.
pub open spec fn run(v: WorldView, stims: Seq<FrameStim>) -> WorldView
    decreases stims.len(),
{
    if stims.len() == 0 {
        v
    } else {
        run(spec_step(v, stims[0].input, stims[0].spawned).0, stims.drop_first())
    }
}

/// Whether a frame starts a new session: the fire key in the main menu
/// (when the quit key does not preempt it) or in game over. Only such a
/// frame may lower the score, which it zeroes.
pub open spec fn session_reset(v: WorldView, i: FrameInput) -> bool {
    match v.state {
        GameState::MainMenu => !i.pause_pressed && i.fire_pressed,
        GameState::GameOver => i.fire_pressed,
        _ => false,
    }
}

/// A step never changes the field extents.
pub proof fn lemma_step_keeps_field(v: WorldView, i: FrameInput, spawned: Option<ObjView>)
    ensures
        spec_step(v, i, spawned).0.field_w == v.field_w,
        spec_step(v, i, spawned).0.field_h == v.field_h,
{
}

/// Within a session the score never decreases across one frame.
pub proof fn lemma_step_score_monotone(v: WorldView, i: FrameInput, spawned: Option<ObjView>)
    requires
        v.wf(),
        i.wf(),
        session_spawn_ok(spawned, v.field_w, v.field_h),
        !session_reset(v, i),
    ensures
        spec_step(v, i, spawned).0.score >= v.score,
{
    if v.state == GameState::Playing {
        lemma_playing_collide_props(v, i, spawned);
    }
}

/// The high score never decreases across any frame, session resets
/// included.
pub proof fn lemma_step_high_score_monotone(v: WorldView, i: FrameInput, spawned: Option<ObjView>)
    requires
        v.wf(),
        i.wf(),
        session_spawn_ok(spawned, v.field_w, v.field_h),
    ensures
        spec_step(v, i, spawned).0.high_score >= v.high_score,
{
    if v.state == GameState::Playing {
        lemma_playing_collide_props(v, i, spawned);
    }
}

/// A frame writes to durable storage only the frame's own (positive)
/// high score, and only on the transition into game over.
pub proof fn lemma_persist_exact(v: WorldView, i: FrameInput, spawned: Option<ObjView>)
    requires
        v.wf(),
        i.wf(),
        session_spawn_ok(spawned, v.field_w, v.field_h),
    ensures
        spec_step(v, i, spawned).1.persist_high_score matches Some(p) ==> ({
            &&& p == spec_step(v, i, spawned).0.high_score
            &&& p > 0
            &&& spec_step(v, i, spawned).0.state == GameState::GameOver
            &&& v.state == GameState::Playing
        }),
{
}

/// Establishes the collision-pass properties for the playing handler's
/// inputs: counters only grow and stay capped.
proof fn lemma_playing_collide_props(v: WorldView, i: FrameInput, spawned: Option<ObjView>)
    requires
        v.wf(),
        i.wf(),
        v.state == GameState::Playing,
        session_spawn_ok(spawned, v.field_w, v.field_h),
    ensures
        spec_playing(v, i, spawned).0.score >= v.score,
        spec_playing(v, i, spawned).0.high_score >= v.high_score,
{
    let dt = i.dt_ms as int;
    let enemies1 = match spawned {
        Some(e) => v.enemies.push(e),
        None => v.enemies,
    };
    let enemies2 = enemies1.map_values(|e: ObjView| spec_move_enemy(e, dt));
    assert forall|m: int| 0 <= m < enemies2.len() implies 0 < (#[trigger] enemies2[m]).height by {
        assert(enemies2[m] == spec_move_enemy(enemies1[m], dt));
    }
    let bullets1 = if i.fire_pressed && crate::world::spec_can_fire(
        v.last_shot_ms,
        i.now_ms as int,
    ) {
        v.bullets.push(crate::world::spec_new_bullet(spec_playing_p1(v, i)))
    } else {
        v.bullets
    };
    let bullets2 = bullets1.map_values(|b: ObjView| crate::world::spec_move_bullet(b, dt));
    lemma_collide_loop_props(
        CollideState {
            enemies: enemies2,
            bullets: bullets2,
            score: v.score,
            high: v.high_score,
            explosions: Seq::empty(),
        },
        0,
    );
}

/// The player as the playing handler has moved and re-animated it,
/// before clamping.
pub open spec fn spec_playing_p1(v: WorldView, i: FrameInput) -> ObjView {
    ObjView {
        animation_num: crate::world::spec_anim(i, v.last_right_ms, v.last_left_ms),
        ..crate::world::spec_moved_player(v.player, i)
    }
}

/// A run preserves well-formedness and the field extents.
pub proof fn lemma_run_wf(v: WorldView, stims: Seq<FrameStim>)
    requires
        v.wf(),
        forall|k: int| 0 <= k < stims.len() ==> stim_ok(v.field_w, v.field_h, #[trigger] stims[k]),
    ensures
        run(v, stims).wf(),
        run(v, stims).field_w == v.field_w,
        run(v, stims).field_h == v.field_h,
    decreases stims.len(),
{
    if stims.len() == 0 {
    } else {
        let v1 = spec_step(v, stims[0].input, stims[0].spawned).0;
        assert(stim_ok(v.field_w, v.field_h, stims[0]));
        lemma_step_preserves_wf(v, stims[0].input, stims[0].spawned);
        lemma_step_keeps_field(v, stims[0].input, stims[0].spawned);
        let rest = stims.drop_first();
        assert forall|k: int| 0 <= k < rest.len() implies stim_ok(
            v1.field_w,
            v1.field_h,
            #[trigger] rest[k],
        ) by {
            assert(rest[k] == stims[k + 1]);
        }
        lemma_run_wf(v1, rest);
    }
}

/// Running a concatenation is running the two parts in turn.
pub proof fn lemma_run_append(v: WorldView, a: Seq<FrameStim>, b: Seq<FrameStim>)
    ensures
        run(v, a + b) == run(run(v, a), b),
    decreases a.len(),
{
    if a.len() == 0 {
        assert(a + b =~= b);
    } else {
        let v1 = spec_step(v, a[0].input, a[0].spawned).0;
        assert((a + b)[0] == a[0]);
        assert((a + b).drop_first() =~= a.drop_first() + b);
        lemma_run_append(v1, a.drop_first(), b);
    }
}

/// Score is monotonically non-decreasing within a session: over any
/// sequence of frames none of which starts a new session, the score
/// after the run is at least the score before it.
pub proof fn lemma_score_monotone_in_session(v: WorldView, stims: Seq<FrameStim>)
    requires
        v.wf(),
        forall|k: int| 0 <= k < stims.len() ==> stim_ok(v.field_w, v.field_h, #[trigger] stims[k]),
        forall|k: int|
            0 <= k < stims.len() ==> !session_reset(
                run(v, stims.take(k)),
                (#[trigger] stims[k]).input,
            ),
    ensures
        run(v, stims).score >= v.score,
    decreases stims.len(),
{
    if stims.len() == 0 {
    } else {
        let v1 = spec_step(v, stims[0].input, stims[0].spawned).0;
        assert(stims.take(0) =~= Seq::<FrameStim>::empty());
        assert(!session_reset(v, stims[0].input));
        lemma_step_score_monotone(v, stims[0].input, stims[0].spawned);
        lemma_step_preserves_wf(v, stims[0].input, stims[0].spawned);
        lemma_step_keeps_field(v, stims[0].input, stims[0].spawned);
        let rest = stims.drop_first();
        assert forall|k: int| 0 <= k < rest.len() implies stim_ok(
            v1.field_w,
            v1.field_h,
            #[trigger] rest[k],
        ) by {
            assert(rest[k] == stims[k + 1]);
        }
        assert forall|k: int| 0 <= k < rest.len() implies !session_reset(
            run(v1, rest.take(k)),
            (#[trigger] rest[k]).input,
        ) by {
            assert(rest[k] == stims[k + 1]);
            assert(stims.take(k + 1)[0] == stims[0]);
            assert(stims.take(k + 1).drop_first() =~= rest.take(k));
            assert(run(v, stims.take(k + 1)) == run(v1, rest.take(k)));
            assert(!session_reset(run(v, stims.take(k + 1)), stims[k + 1].input));
        }
        lemma_score_monotone_in_session(v1, rest);
    }
}

/// The high score after any run is at least the high score before it,
/// session resets included.
pub proof fn lemma_high_score_monotone(v: WorldView, stims: Seq<FrameStim>)
    requires
        v.wf(),
        forall|k: int| 0 <= k < stims.len() ==> stim_ok(v.field_w, v.field_h, #[trigger] stims[k]),
    ensures
        run(v, stims).high_score >= v.high_score,
    decreases stims.len(),
{
    if stims.len() == 0 {
    } else {
        let v1 = spec_step(v, stims[0].input, stims[0].spawned).0;
        lemma_step_high_score_monotone(v, stims[0].input, stims[0].spawned);
        lemma_step_preserves_wf(v, stims[0].input, stims[0].spawned);
        lemma_step_keeps_field(v, stims[0].input, stims[0].spawned);
        let rest = stims.drop_first();
        assert forall|k: int| 0 <= k < rest.len() implies stim_ok(
            v1.field_w,
            v1.field_h,
            #[trigger] rest[k],
        ) by {
            assert(rest[k] == stims[k + 1]);
        }
        lemma_high_score_monotone(v1, rest);
    }
}

/// High score persistence is non-decreasing: whenever two frames of one
/// run both write to durable storage, the later write carries at least
/// the earlier one's value.
pub proof fn lemma_persisted_monotone(v: WorldView, stims: Seq<FrameStim>, k1: int, k2: int)
    requires
        v.wf(),
        forall|k: int| 0 <= k < stims.len() ==> stim_ok(v.field_w, v.field_h, #[trigger] stims[k]),
        0 <= k1 <= k2 < stims.len(),
    ensures
        ({
            let w1 = run(v, stims.take(k1));
            let w2 = run(v, stims.take(k2));
            let e1 = spec_step(w1, stims[k1].input, stims[k1].spawned).1.persist_high_score;
            let e2 = spec_step(w2, stims[k2].input, stims[k2].spawned).1.persist_high_score;
            e1 matches Some(p1) ==> (e2 matches Some(p2) ==> p2 >= p1)
        }),
{
    let w1 = run(v, stims.take(k1));
    let w2 = run(v, stims.take(k2));
    assert forall|k: int| 0 <= k < stims.take(k1).len() implies stim_ok(
        v.field_w,
        v.field_h,
        #[trigger] stims.take(k1)[k],
    ) by {
        assert(stims.take(k1)[k] == stims[k]);
    }
    assert forall|k: int| 0 <= k < stims.take(k2).len() implies stim_ok(
        v.field_w,
        v.field_h,
        #[trigger] stims.take(k2)[k],
    ) by {
        assert(stims.take(k2)[k] == stims[k]);
    }
    lemma_run_wf(v, stims.take(k1));
    lemma_run_wf(v, stims.take(k2));
    lemma_persist_exact(w1, stims[k1].input, stims[k1].spawned);
    lemma_persist_exact(w2, stims[k2].input, stims[k2].spawned);
    // The world after frame k1 is a prefix run; the high score can only
    // have grown between the two prefixes. When both indices name the
    // same frame the two writes are one and the same.
    if k1 < k2 {
        let u1 = spec_step(w1, stims[k1].input, stims[k1].spawned).0;
        let pre = stims.take(k1).push(stims[k1]);
        assert(stims.take(k1 + 1) =~= pre);
        lemma_run_push(v, stims.take(k1), stims[k1]);
        assert(run(v, pre) == u1);
        assert(run(v, stims.take(k1 + 1)) == run(v, pre));
        assert(run(v, stims.take(k1 + 1)) == u1);
        assert(stims.take(k2) =~= stims.take(k1 + 1) + stims.subrange(k1 + 1, k2));
        lemma_run_append(v, stims.take(k1 + 1), stims.subrange(k1 + 1, k2));
        assert forall|k: int| 0 <= k < stims.take(k1 + 1).len() implies stim_ok(
            v.field_w,
            v.field_h,
            #[trigger] stims.take(k1 + 1)[k],
        ) by {
            assert(stims.take(k1 + 1)[k] == stims[k]);
        }
        lemma_run_wf(v, stims.take(k1 + 1));
        assert forall|k: int| 0 <= k < stims.subrange(k1 + 1, k2).len() implies stim_ok(
            u1.field_w,
            u1.field_h,
            #[trigger] stims.subrange(k1 + 1, k2)[k],
        ) by {
            assert(stims.subrange(k1 + 1, k2)[k] == stims[k1 + 1 + k]);
        }
        lemma_high_score_monotone(u1, stims.subrange(k1 + 1, k2));
        assert(w2.high_score >= u1.high_score);
        lemma_step_high_score_monotone(w2, stims[k2].input, stims[k2].spawned);
    }
}

/// Running one more frame steps the run's result once.
pub proof fn lemma_run_push(v: WorldView, stims: Seq<FrameStim>, s: FrameStim)
    ensures
        run(v, stims.push(s)) == spec_step(run(v, stims), s.input, s.spawned).0,
    decreases stims.len(),
{
    reveal_with_fuel(run, 3);
    if stims.len() == 0 {
        assert(stims.push(s)[0] == s);
        assert(stims.push(s).drop_first() =~= Seq::<FrameStim>::empty());
        assert(run(v, stims.push(s)) == spec_step(v, s.input, s.spawned).0);
        assert(run(v, stims) == v);
    } else {
        let v1 = spec_step(v, stims[0].input, stims[0].spawned).0;
        assert(stims.push(s)[0] == stims[0]);
        assert(stims.push(s).drop_first() =~= stims.drop_first().push(s));
        lemma_run_push(v1, stims.drop_first(), s);
        assert(run(v, stims.push(s)) == run(v1, stims.drop_first().push(s)));
        assert(run(v, stims) == run(v1, stims.drop_first()));
    }
}

/// Filtering is idempotent: a second pass with the same predicate keeps
/// everything the first pass kept.
pub proof fn lemma_filter_idempotent<A>(s: Seq<A>, p: spec_fn(A) -> bool)
    ensures
        s.filter(p).filter(p) == s.filter(p),
{
    assert forall|j: int| 0 <= j < s.filter(p).len() implies p(#[trigger] s.filter(p)[j]) by {
        s.lemma_filter_pred(p, j);
    }
    lemma_filter_all_kept(s.filter(p), p);
}

/// Filtering keeps a sequence whole when every element satisfies the
/// predicate.
proof fn lemma_filter_all_kept<A>(s: Seq<A>, p: spec_fn(A) -> bool)
    requires
        forall|i: int| 0 <= i < s.len() ==> p(#[trigger] s[i]),
    ensures
        s.filter(p) == s,
    decreases s.len(),
{
    reveal(Seq::filter);
    if s.len() == 0 {
        assert(s.filter(p) =~= s);
    } else {
        lemma_filter_all_kept(s.drop_last(), p);
        assert(s.filter(p) =~= s);
    }
}

/// The off-screen cull is idempotent on enemies: culling twice in
/// succession with no movement between yields the same surviving set as
/// culling once.
pub proof fn lemma_enemy_cull_idempotent(enemies: Seq<ObjView>, field_h: int)
    ensures
        enemies.filter(enemy_on_screen(field_h)).filter(enemy_on_screen(field_h)) == enemies.filter(
            enemy_on_screen(field_h),
        ),
{
    lemma_filter_idempotent(enemies, enemy_on_screen(field_h));
}

/// The off-screen cull is idempotent on bullets.
pub proof fn lemma_bullet_cull_idempotent(bullets: Seq<ObjView>)
    ensures
        bullets.filter(bullet_on_screen()).filter(bullet_on_screen()) == bullets.filter(
            bullet_on_screen(),
        ),
{
    lemma_filter_idempotent(bullets, bullet_on_screen());
}

} // verus!
