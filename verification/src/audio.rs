//! The decisions of the music and footstep player: which track should play,
//! when a crossfade starts and ends, and which footstep sound comes next.
//! Volumes and fade timers are floating point and stay with the player that
//! owns the audio device; it hands in what they decided as booleans.

use vstd::prelude::*;
use crate::terrain::Biome;

verus! {

/// Determines what music should be playing.
#[derive(Clone, Debug, PartialEq, Eq, Hash)]
pub enum MusicContext {
    Biome(Biome),
    Location(String),
}

/// The music wanted this frame: a location's own track takes priority over
/// the biome's, if the player is at a location that has one
/// (`location_has_track`).
pub fn desired_music_context(biome: Biome, location: Option<&str>, location_has_track: bool) -> (r: MusicContext)
    ensures
        match location {
            Some(loc) => if location_has_track {
                r matches MusicContext::Location(name) && name@ == loc@
            } else {
                r == MusicContext::Biome(biome)
            },
            None => r == MusicContext::Biome(biome),
        },
{
    match location {
        Some(loc) => {
            if location_has_track {
                MusicContext::Location(loc.to_owned())
            } else {
                MusicContext::Biome(biome)
            }
        },
        None => MusicContext::Biome(biome),
    }
}

/// Whether two contexts name the same music: the same biome, or locations of
/// the same name.
pub open spec fn same_music(a: MusicContext, b: MusicContext) -> bool {
    match (a, b) {
        (MusicContext::Biome(x), MusicContext::Biome(y)) => x == y,
        (MusicContext::Location(x), MusicContext::Location(y)) => x@ == y@,
        _ => false,
    }
}

/// Compare two contexts by what they name.
pub fn same_context(a: &MusicContext, b: &MusicContext) -> (r: bool)
    ensures
        r == same_music(*a, *b),
{
    match a {
        MusicContext::Biome(x) => match b {
            MusicContext::Biome(y) => *x == *y,
            MusicContext::Location(_) => false,
        },
        MusicContext::Location(x) => match b {
            MusicContext::Biome(_) => false,
            MusicContext::Location(y) => *x == *y,
        },
    }
}

/// A copy of a context.
pub fn copy_context(c: &MusicContext) -> (r: MusicContext)
    ensures
        r == *c,
{
    match c {
        MusicContext::Biome(b) => MusicContext::Biome(*b),
        MusicContext::Location(name) => MusicContext::Location(name.clone()),
    }
}

#[derive(Clone, Copy, Debug, PartialEq, Eq, Structural)]
pub enum FadeState {
    Idle,
    FadingOut,
    FadingIn,
}

/// What the music player keeps between frames, besides its volumes and timers.
pub struct MusicState {
    /// The context whose track is playing, or was last started.
    pub current: Option<MusicContext>,
    pub fade: FadeState,
    /// The context to switch to once the fade-out ends.
    pub pending: Option<MusicContext>,
    pub muted: bool,
}

/// What to do with the sink when a fade step ends.
#[derive(Debug)]
pub enum FadeAction {
    /// Nothing beyond setting the fading volume.
    Continue,
    /// The fade-out has ended: stop the sink, start this context's track (if
    /// any was pending) and silence the sink for the fade-in.
    SwitchTrack(Option<MusicContext>),
    /// The fade-in has ended: play at full volume.
    FadeInDone,
    /// The track ran out with nothing fading: start this context's track again.
    Replay(MusicContext),
}

/// What a mute toggle does to the sink's volume.
#[derive(Clone, Copy, Debug, PartialEq, Eq, Structural)]
pub enum MuteVolume {
    /// Silence it.
    Silence,
    /// Set it back to the music volume.
    Restore,
    /// Leave it to the fade in progress.
    Keep,
}

/// Whether the music should change to `desired`.
pub open spec fn needs_change(current: Option<MusicContext>, desired: MusicContext) -> bool {
    match current {
        Some(c) => !same_music(c, desired),
        None => true,
    }
}

/// Whether a change to new music should fade the current track out first,
/// rather than start the new one at once: only when something is playing.
pub open spec fn fades_out(current: Option<MusicContext>, sink_empty: bool) -> bool {
    current is Some && !sink_empty
}

/// The first half of a frame. If `desired` differs from the current music and
/// no fade is under way, either the current track starts fading out, with
/// `desired` kept for afterwards (when the sink still plays, `sink_empty`
/// false), or `desired` becomes current at once and is returned, to be
/// started. Otherwise nothing changes and nothing is returned.
pub open spec fn planned(s: MusicState, desired: MusicContext, sink_empty: bool) -> (MusicState, Option<MusicContext>) {
    if needs_change(s.current, desired) && s.fade == FadeState::Idle {
        if fades_out(s.current, sink_empty) {
            (MusicState { fade: FadeState::FadingOut, pending: Some(desired), ..s }, None)
        } else {
            (MusicState { current: Some(desired), ..s }, Some(desired))
        }
    } else {
        (s, None)
    }
}

/// The second half of a frame: `fade_done` says whether the fade under way has
/// run its full time, `sink_empty` whether the sink has run out of music.
/// A finished fade-out switches to the pending music and fades it in; a
/// finished fade-in ends the fade; a track that ran out with nothing fading
/// starts again.
pub open spec fn faded(s: MusicState, fade_done: bool, sink_empty: bool) -> (MusicState, FadeAction) {
    match s.fade {
        FadeState::FadingOut => if fade_done {
            let current = match s.pending {
                Some(p) => Some(p),
                None => s.current,
            };
            (MusicState { current, fade: FadeState::FadingIn, pending: None, ..s }, FadeAction::SwitchTrack(s.pending))
        } else {
            (s, FadeAction::Continue)
        },
        FadeState::FadingIn => if fade_done {
            (MusicState { fade: FadeState::Idle, ..s }, FadeAction::FadeInDone)
        } else {
            (s, FadeAction::Continue)
        },
        FadeState::Idle => if sink_empty && s.current is Some {
            (s, FadeAction::Replay(s.current->0))
        } else {
            (s, FadeAction::Continue)
        },
    }
}

/// A change of music while a track plays ends, after the fade-out and the
/// fade-in, with the music that was asked for playing and nothing fading,
/// whatever the sink reported meanwhile.
pub proof fn law_crossfade_lands_on_desired(s: MusicState, desired: MusicContext, e1: bool, e2: bool, e3: bool)
    requires
        s.fade == FadeState::Idle,
        needs_change(s.current, desired),
        fades_out(s.current, e1),
    ensures
        ({
            let (s1, r1) = planned(s, desired, e1);
            let (s2, r2) = faded(s1, true, e2);
            let (s3, r3) = faded(s2, true, e3);
            &&& r1 is None
            &&& r2 == FadeAction::SwitchTrack(Some(desired))
            &&& r3 == FadeAction::FadeInDone
            &&& s3.current == Some(desired)
            &&& s3.fade == FadeState::Idle
            &&& s3.pending is None
            &&& s3.muted == s.muted
        }),
{
}

/// Once the music asked for is current and nothing fades, asking for it again
/// changes nothing and starts nothing.
pub proof fn law_settled_music_stays(s: MusicState, desired: MusicContext, sink_empty: bool)
    requires
        s.current == Some(desired),
        s.fade == FadeState::Idle,
    ensures
        planned(s, desired, sink_empty) == (s, None::<MusicContext>),
{
}

impl MusicState {
    /// Nothing playing, nothing fading, not muted.
    pub fn new() -> (r: Self)
        ensures
            r.current is None,
            r.fade == FadeState::Idle,
            r.pending is None,
            !r.muted,
    {
        MusicState { current: None, fade: FadeState::Idle, pending: None, muted: false }
    }

    /// The first half of a frame: see `planned`.
    pub fn plan_change(&mut self, desired: MusicContext, sink_empty: bool) -> (r: Option<MusicContext>)
        ensures
            (*final(self), r) == planned(*old(self), desired, sink_empty),
    {
        let change = match &self.current {
            Some(c) => !same_context(c, &desired),
            None => true,
        };
        if change && self.fade == FadeState::Idle {
            if self.current.is_some() && !sink_empty {
                self.fade = FadeState::FadingOut;
                self.pending = Some(desired);
                None
            } else {
                let started = copy_context(&desired);
                self.current = Some(desired);
                Some(started)
            }
        } else {
            None
        }
    }

    /// The second half of a frame, once the fading volume is set: see
    /// `faded`.
    pub fn fade_step(&mut self, fade_done: bool, sink_empty: bool) -> (r: FadeAction)
        ensures
            (*final(self), r) == faded(*old(self), fade_done, sink_empty),
    {
        match self.fade {
            FadeState::FadingOut => {
                if fade_done {
                    self.fade = FadeState::FadingIn;
                    let next = self.pending.take();
                    match next {
                        Some(ctx) => {
                            let started = copy_context(&ctx);
                            self.current = Some(ctx);
                            FadeAction::SwitchTrack(Some(started))
                        },
                        None => FadeAction::SwitchTrack(None),
                    }
                } else {
                    FadeAction::Continue
                }
            },
            FadeState::FadingIn => {
                if fade_done {
                    self.fade = FadeState::Idle;
                    FadeAction::FadeInDone
                } else {
                    FadeAction::Continue
                }
            },
            FadeState::Idle => {
                if sink_empty {
                    match &self.current {
                        Some(ctx) => FadeAction::Replay(copy_context(ctx)),
                        None => FadeAction::Continue,
                    }
                } else {
                    FadeAction::Continue
                }
            },
        }
    }

    /// Toggle the mute; says what to do with the sink's volume.
    pub fn toggle_mute(&mut self) -> (r: MuteVolume)
        ensures
            final(self).muted == !old(self).muted,
            final(self).current == old(self).current,
            final(self).fade == old(self).fade,
            final(self).pending == old(self).pending,
            r == if final(self).muted {
                MuteVolume::Silence
            } else if old(self).fade == FadeState::Idle {
                MuteVolume::Restore
            } else {
                MuteVolume::Keep
            },
    {
        self.muted = !self.muted;
        if self.muted {
            MuteVolume::Silence
        } else if self.fade == FadeState::Idle {
            MuteVolume::Restore
        } else {
            MuteVolume::Keep
        }
    }

    /// Whether a new music volume takes effect at once: not while muted or
    /// fading.
    pub fn volume_applies(&self) -> (r: bool)
        ensures
            r == (!self.muted && self.fade == FadeState::Idle),
    {
        !self.muted && self.fade == FadeState::Idle
    }
}

/// The footstep to play next, from a set of `walk_len` walking sounds and
/// `run_len` running sounds: `(true, i)` for running sound `i`, `(false, i)`
/// for walking sound `i`. The running sounds are used while running, unless
/// there are none. The sounds take turns by `step_index`, which advances
/// (wrapping) each time a sound is picked; with no sound to pick, the result is
/// `None` and the index stays.
pub fn next_footstep(is_running: bool, walk_len: usize, run_len: usize, step_index: &mut usize) -> (r: Option<(bool, usize)>)
    ensures
        ({
            let use_run = is_running && run_len > 0;
            let len = if use_run { run_len } else { walk_len };
            &&& len == 0 ==> r is None && *final(step_index) == *old(step_index)
            &&& len > 0 ==> r == Some((use_run, (*old(step_index) % len) as usize))
                && *final(step_index) == if *old(step_index) == usize::MAX { 0 } else { (*old(step_index) + 1) as usize }
        }),
{
    let use_run = is_running && run_len > 0;
    let len = if use_run { run_len } else { walk_len };
    if len == 0 {
        return None;
    }
    let idx = *step_index % len;
    *step_index = if *step_index == usize::MAX { 0 } else { *step_index + 1 };
    Some((use_run, idx))
}

} // verus!
