use vstd::prelude::*;

verus! {

/// The sound identifiers the session uses; the host maps each to a
/// loaded sound resource.
#[derive(Clone, Copy, Debug, PartialEq, Eq, Structural)]
pub enum SoundId {
    Theme,
    ExplosionSound,
    LaserSound,
}

/// The numeric key a sound identifier files under.
pub open spec fn spec_sound_key(id: SoundId) -> int {
    match id {
        SoundId::Theme => 0,
        SoundId::ExplosionSound => 1,
        SoundId::LaserSound => 2,
    }
}

/// The numeric key a sound identifier files under.
pub fn sound_key(id: SoundId) -> (k: u32)
    ensures
        k as int == spec_sound_key(id),
{
    match id {
        SoundId::Theme => 0,
        SoundId::ExplosionSound => 1,
        SoundId::LaserSound => 2,
    }
}

/// Tracks which looped sounds are currently playing, so that the engine
/// receives a play or stop call only on the edge, never every frame.
/// The host performs the actual engine call whenever a method answers
/// that one is due.
pub struct SoundManager {
    entries: Vec<(u32, bool)>,
}

impl SoundManager {
    /// Each key is filed at most once.
    pub closed spec fn wf(self) -> bool {
        forall|i: int, j: int|
            0 <= i < j < self.entries@.len() ==> (#[trigger] self.entries@[i]).0 != (
            #[trigger] self.entries@[j]).0
    }

    /// Whether the sound with this key is marked playing.
    pub closed spec fn spec_playing(self, key: u32) -> bool {
        exists|i: int|
            0 <= i < self.entries@.len() && (#[trigger] self.entries@[i]) == (key, true)
    }

    /// A manager with no sound playing.
    pub fn new() -> (s: SoundManager)
        ensures
            s.wf(),
            forall|key: u32| !s.spec_playing(key),
    {
        let s = SoundManager { entries: Vec::new() };
        proof {
            assert(forall|key: u32| !s.spec_playing(key));
        }
        s
    }

    /// The index the key is filed at, if any.
    fn find(&self, key: u32) -> (r: Option<usize>)
        ensures
            match r {
                Some(ix) => ix < self.entries@.len() && self.entries@[ix as int].0 == key,
                None => forall|i: int|
                    0 <= i < self.entries@.len() ==> (#[trigger] self.entries@[i]).0 != key,
            },
    {
        let n = self.entries.len();
        let mut i: usize = 0;
        while i < n
            invariant
                0 <= i <= n,
                n == self.entries@.len(),
                forall|k: int| 0 <= k < i ==> (#[trigger] self.entries@[k]).0 != key,
            decreases n - i,
        {
            if self.entries[i].0 == key {
                return Some(i);
            }
            i += 1;
        }
        None
    }

    /// Whether the sound with this key is marked playing.
    pub fn is_playing(&self, key: u32) -> (r: bool)
        requires
            self.wf(),
        ensures
            r == self.spec_playing(key),
    {
        match self.find(key) {
            Some(ix) => {
                let playing = self.entries[ix].1;
                proof {
                    if playing {
                        assert(self.entries@[ix as int] == (key, true));
                    } else {
                        assert forall|i: int|
                            0 <= i < self.entries@.len() implies (#[trigger] self.entries@[i])
                            != (key, true) by {
                            if i != ix {
                                assert(self.entries@[i].0 != key || self.entries@[ix as int].0
                                    != key);
                            }
                        }
                    }
                }
                playing
            },
            None => {
                proof {
                    assert forall|i: int|
                        0 <= i < self.entries@.len() implies (#[trigger] self.entries@[i]) != (
                    key, true) by {}
                }
                false
            },
        }
    }

    /// Marks the sound playing. Answers whether the engine call is due:
    /// exactly when it was not already playing.
    pub fn start_playing(&mut self, key: u32) -> (issue: bool)
        requires
            old(self).wf(),
        ensures
            final(self).wf(),
            issue == !old(self).spec_playing(key),
            final(self).spec_playing(key),
            forall|o: u32| o != key ==> final(self).spec_playing(o) == old(self).spec_playing(o),
    {
        if self.is_playing(key) {
            false
        } else {
            let ghost pre = self.entries@;
            match self.find(key) {
                Some(ix) => {
                    self.entries[ix] = (key, true);
                    proof {
                        assert(self.entries@ =~= pre.update(ix as int, (key, true)));
                        assert(self.entries@[ix as int] == (key, true));
                        let alt: u32 = if key == 0 {
                            1
                        } else {
                            0
                        };
                        lemma_other_keys_unchanged(pre, self.entries@, ix as int, key, alt);
                        assert forall|o: u32| o != key implies self.spec_playing(o) == old(
                            self,
                        ).spec_playing(o) by {
                            lemma_other_keys_unchanged(pre, self.entries@, ix as int, key, o);
                        }
                    }
                },
                None => {
                    self.entries.push((key, true));
                    proof {
                        assert(self.entries@ =~= pre.push((key, true)));
                        assert(self.entries@[pre.len() as int] == (key, true));
                        let alt: u32 = if key == 0 {
                            1
                        } else {
                            0
                        };
                        lemma_pushed_key(pre, self.entries@, key, true, alt);
                        assert forall|o: u32| o != key implies self.spec_playing(o) == old(
                            self,
                        ).spec_playing(o) by {
                            lemma_pushed_key(pre, self.entries@, key, true, o);
                        }
                    }
                },
            }
            true
        }
    }

    /// Marks the sound stopped. Answers whether the engine call is due:
    /// exactly when it was playing.
    pub fn stop_playing(&mut self, key: u32) -> (issue: bool)
        requires
            old(self).wf(),
        ensures
            final(self).wf(),
            issue == old(self).spec_playing(key),
            !final(self).spec_playing(key),
            forall|o: u32| o != key ==> final(self).spec_playing(o) == old(self).spec_playing(o),
    {
        if self.is_playing(key) {
            let ghost pre = self.entries@;
            match self.find(key) {
                Some(ix) => {
                    self.entries[ix] = (key, false);
                    proof {
                        assert(self.entries@ =~= pre.update(ix as int, (key, false)));
                        let alt: u32 = if key == 0 {
                            1
                        } else {
                            0
                        };
                        lemma_other_keys_unchanged(pre, self.entries@, ix as int, key, alt);
                        assert forall|o: u32| o != key implies self.spec_playing(o) == old(
                            self,
                        ).spec_playing(o) by {
                            lemma_other_keys_unchanged(pre, self.entries@, ix as int, key, o);
                        }
                        assert forall|i: int|
                            0 <= i < self.entries@.len() implies (#[trigger] self.entries@[i])
                            != (key, true) by {
                            if i != ix {
                                assert(pre[i].0 != key || pre[ix as int].0 != key);
                            }
                        }
                    }
                },
                None => {
                    proof {
                        assert(false);
                    }
                },
            }
            true
        } else {
            false
        }
    }

    /// Whether a volume adjustment should go out to the engine: only
    /// for a sound that is playing.
    pub fn set_volume(&self, key: u32) -> (r: bool)
        requires
            self.wf(),
        ensures
            r == self.spec_playing(key),
    {
        self.is_playing(key)
    }
}

/// Updating the entry filed under `key` keeps the keys unique and
/// leaves any other key's playing state as it was.
proof fn lemma_other_keys_unchanged(
    pre: Seq<(u32, bool)>,
    post: Seq<(u32, bool)>,
    ix: int,
    key: u32,
    o: u32,
)
    requires
        0 <= ix < pre.len(),
        pre[ix].0 == key,
        post.len() == pre.len(),
        post[ix].0 == key,
        forall|i: int| 0 <= i < pre.len() && i != ix ==> (#[trigger] post[i]) == pre[i],
        forall|i: int, j: int|
            0 <= i < j < pre.len() ==> (#[trigger] pre[i]).0 != (#[trigger] pre[j]).0,
        o != key,
    ensures
        forall|i: int, j: int|
            0 <= i < j < post.len() ==> (#[trigger] post[i]).0 != (#[trigger] post[j]).0,
        (exists|i: int| 0 <= i < post.len() && (#[trigger] post[i]) == (o, true)) == (exists|i: int|
            0 <= i < pre.len() && (#[trigger] pre[i]) == (o, true)),
{
    if exists|i: int| 0 <= i < post.len() && (#[trigger] post[i]) == (o, true) {
        let i = choose|i: int| 0 <= i < post.len() && (#[trigger] post[i]) == (o, true);
        assert(i != ix);
        assert(pre[i] == (o, true));
    }
    if exists|i: int| 0 <= i < pre.len() && (#[trigger] pre[i]) == (o, true) {
        let i = choose|i: int| 0 <= i < pre.len() && (#[trigger] pre[i]) == (o, true);
        assert(i != ix);
        assert(post[i] == (o, true));
    }
}

/// Appending an entry with a fresh key keeps the keys unique and leaves
/// any other key's playing state as it was.
proof fn lemma_pushed_key(
    pre: Seq<(u32, bool)>,
    post: Seq<(u32, bool)>,
    key: u32,
    val: bool,
    o: u32,
)
    requires
        post =~= pre.push((key, val)),
        forall|i: int| 0 <= i < pre.len() ==> (#[trigger] pre[i]).0 != key,
        forall|i: int, j: int|
            0 <= i < j < pre.len() ==> (#[trigger] pre[i]).0 != (#[trigger] pre[j]).0,
        o != key,
    ensures
        forall|i: int, j: int|
            0 <= i < j < post.len() ==> (#[trigger] post[i]).0 != (#[trigger] post[j]).0,
        (exists|i: int| 0 <= i < post.len() && (#[trigger] post[i]) == (o, true)) == (exists|i: int|
            0 <= i < pre.len() && (#[trigger] pre[i]) == (o, true)),
{
    assert forall|i: int, j: int| 0 <= i < j < post.len() implies (#[trigger] post[i]).0 != (
    #[trigger] post[j]).0 by {
        if j == post.len() - 1 {
            assert(post[i] == pre[i]);
        } else {
            assert(post[i] == pre[i] && post[j] == pre[j]);
        }
    }
    if exists|i: int| 0 <= i < post.len() && (#[trigger] post[i]) == (o, true) {
        let i = choose|i: int| 0 <= i < post.len() && (#[trigger] post[i]) == (o, true);
        assert(i != post.len() - 1);
        assert(pre[i] == (o, true));
    }
    if exists|i: int| 0 <= i < pre.len() && (#[trigger] pre[i]) == (o, true) {
        let i = choose|i: int| 0 <= i < pre.len() && (#[trigger] pre[i]) == (o, true);
        assert(post[i] == (o, true));
    }
}

} // verus!
