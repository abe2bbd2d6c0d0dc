//! Notifications on player joins: which sound to play, the single-flight
//! flag that keeps playbacks from overlapping, and the username cache.
use vstd::prelude::*;
use vstd::string::StringSliceAdditionalSpecFns;
use crate::bytes::{copy_range, same};

verus! {

/// A process-wide single-flight flag for sound playback: while one plays,
/// new playbacks are dropped, not queued.
pub struct PlaybackFlag {
    playing: bool,
}

/// Whether a playback may start, and the flag's state after the attempt.
pub open spec fn begin(playing: bool) -> (bool, bool) {
    (!playing, true)
}

impl PlaybackFlag {
    pub closed spec fn is_playing(&self) -> bool {
        self.playing
    }

    pub fn new() -> (r: PlaybackFlag)
        ensures
            !r.is_playing(),
    {
        PlaybackFlag { playing: false }
    }

    /// Claims the flag: true where nothing was playing (the caller now
    /// plays), false where a playback is running (the caller drops its own).
    pub fn try_begin_play(&mut self) -> (r: bool)
        ensures
            (r, final(self).is_playing()) == begin(old(self).is_playing()),
    {
        let was = self.playing;
        self.playing = true;
        !was
    }

    /// Releases the flag once a playback has finished.
    pub fn end_play(&mut self)
        ensures
            !final(self).is_playing(),
    {
        self.playing = false;
    }
}

/// Single flight: once a playback has started, every further attempt before
/// it ends is refused, so at most one plays at a time.
pub proof fn lemma_single_flight(playing: bool)
    ensures
        begin(begin(playing).1).0 == false,
        begin(playing).0 ==> !playing,
{
}

/// Starts the local-watchlist sound where the flag allows; returns whether
/// playback should start.
pub fn play_watch_sound(flag: &mut PlaybackFlag) -> (r: bool)
    ensures
        (r, final(flag).is_playing()) == begin(old(flag).is_playing()),
{
    flag.try_begin_play()
}

/// Starts the group-watchlist sound where the flag allows; returns whether
/// playback should start.
pub fn play_group_sound(flag: &mut PlaybackFlag) -> (r: bool)
    ensures
        (r, final(flag).is_playing()) == begin(old(flag).is_playing()),
{
    flag.try_begin_play()
}

/// Which sound a player join calls for.
#[derive(PartialEq, Eq, Structural, Clone, Copy, Debug)]
pub enum SoundChoice {
    /// The user's own sound override.
    UserOverride,
    /// The local watchlist's sound, with a toast.
    LocalWatch,
    /// The group watchlist's sound.
    GroupWatch,
    /// No sound.
    Silent,
}

/// The priority of the sources: a per-user override, then the local
/// watchlist, then a group-watchlist match, else nothing.
pub open spec fn sound_for(has_override: bool, watched: bool, group_match: bool) -> SoundChoice {
    if has_override {
        SoundChoice::UserOverride
    } else if watched {
        SoundChoice::LocalWatch
    } else if group_match {
        SoundChoice::GroupWatch
    } else {
        SoundChoice::Silent
    }
}

pub fn choose_sound(has_override: bool, watched: bool, group_match: bool) -> (r: SoundChoice)
    ensures
        r == sound_for(has_override, watched, group_match),
{
    if has_override {
        SoundChoice::UserOverride
    } else if watched {
        SoundChoice::LocalWatch
    } else if group_match {
        SoundChoice::GroupWatch
    } else {
        SoundChoice::Silent
    }
}

pub open spec fn placeholder_name() -> Seq<u8> {
    "Not Yet Recorded".spec_bytes()
}

/// What to store as a user's last known name after a join under `name`,
/// given what is stored (`None`: nothing to write). A blank name writes a
/// placeholder only where nothing is stored; a name is written where it
/// differs from what is stored.
pub open spec fn username_update(existing: Option<Seq<u8>>, name: Seq<u8>) -> Option<Seq<u8>> {
    if name.len() == 0 {
        if existing is None {
            Some(placeholder_name())
        } else {
            None
        }
    } else if existing != Some(name) {
        Some(name)
    } else {
        None
    }
}

pub fn username_to_store(existing: Option<&[u8]>, name: &[u8]) -> (r: Option<Vec<u8>>)
    ensures
        match r {
            Some(v) => username_update(
                match existing {
                    Some(e) => Some(e@),
                    None => None,
                },
                name@,
            ) == Some(v@),
            None => username_update(
                match existing {
                    Some(e) => Some(e@),
                    None => None,
                },
                name@,
            ) is None,
        },
{
    if name.len() == 0 {
        match existing {
            None => {
                let p = "Not Yet Recorded".as_bytes();
                assert(p@.subrange(0, p@.len() as int) =~= p@);
                Some(copy_range(p, 0, p.len()))
            },
            Some(_) => None,
        }
    } else {
        let differs = match existing {
            Some(e) => !same(e, name),
            None => true,
        };
        if differs {
            assert(name@.subrange(0, name@.len() as int) =~= name@);
            Some(copy_range(name, 0, name.len()))
        } else {
            None
        }
    }
}

} // verus!
