//! The player: what keys, media buttons and the end of a track do to a list of
//! tracks that is played.
use crate::keys::{menu_quit_key, quits, Key, KeyPress, MediaCommand};
use crate::queue::{
    cycled, forward_step, forward_track_index, previous_track, previous_track_index,
    restart_pass_order, restored, resume_point, set_shuffle_order, shuffle_slice, shuffled_from,
    tail_index, tail_start, with_next, without_next, LoopMode,
};
use crate::queue_view::{
    add_next, can_unqueue, place_with, place_without, row_above, row_below, row_track, smaller,
    QueueEdit, QueueEditor, QueueStep,
};
use crate::sponsor::{skip_target, sponsor_skip_target, SponsorSegment};
use crate::time::{lemma_span_of, span_of, Span};
use crate::youtube::{next_rate, seek_moment, seek_target, stepped_rate, MAX_RATE, MIN_RATE};
use vstd::prelude::*;
use vstd::std_specs::cmp::PartialEqSpec;

verus! {

/// What is said when the audio output has gone.
pub const DEVICE_UNAVAILABLE_MESSAGE: &'static str =
    "Audio output device disconnected. The requested device is no longer available; it may have been unplugged or disconnected.";

pub fn device_unavailable_error() -> (r: String)
    ensures
        r@ == DEVICE_UNAVAILABLE_MESSAGE@,
{
    DEVICE_UNAVAILABLE_MESSAGE.to_string()
}

/// Where the tracks come from.
#[derive(Clone, Copy, Debug, PartialEq, Eq, Structural)]
pub enum PlayerSource {
    Local,
    Telegram,
    YouTube,
}

/// How the player is left.
#[derive(Clone, Copy, Debug, PartialEq, Eq, Structural)]
pub enum PlayerExit {
    Back,
    Quit,
}

/// What is to be done next.
#[derive(Clone, Copy, Debug, PartialEq, Eq, Structural)]
pub enum PlayerAction {
    /// Nothing.
    Stay,
    /// The current track starts from its beginning.
    Start,
    /// The current track goes on at this position.
    MoveTo(Span),
    /// The volume changes by so many hundredths.
    Volume(i32),
    /// Playback pauses, or goes on.
    SetPaused(bool),
    /// The queue opens.
    OpenQueue,
    /// More tracks are asked for.
    AddTracks,
    /// The stream stops until there is an audio output again.
    Wait,
    /// The player ends because the audio output has gone.
    Fail,
    /// The player ends.
    Exit(PlayerExit),
}

/// A player. Tracks are numbers; equal tracks have equal numbers.
pub struct Player {
    pub source: PlayerSource,
    pub tracks: Vec<u64>,
    pub original: Vec<u64>,
    pub index: usize,
    pub play_next: usize,
    pub resume: Option<usize>,
    pub shuffle: bool,
    pub loop_mode: LoopMode,
    pub paused: bool,
    pub rate: u32,
    pub sponsor: bool,
    pub last_skipped: Option<SponsorSegment>,
    pub waiting: Option<Span>,
}

/// What a player holds.
pub struct PlayerState {
    pub source: PlayerSource,
    pub tracks: Seq<u64>,
    pub original: Seq<u64>,
    pub index: int,
    pub play_next: int,
    pub resume: Option<usize>,
    pub shuffle: bool,
    pub loop_mode: LoopMode,
    pub paused: bool,
    pub rate: int,
    pub sponsor: bool,
    pub last_skipped: Option<SponsorSegment>,
    pub waiting: Option<Span>,
}

/// The current track and the one to come back to are in the list, no more
/// tracks are queued than there are, and the speed is in its range.
pub open spec fn player_wf(s: PlayerState) -> bool {
    &&& 0 <= s.index < s.tracks.len()
    &&& s.resume matches Some(r) ==> r < s.tracks.len()
    &&& 0 <= s.play_next <= s.tracks.len()
    &&& MIN_RATE <= s.rate <= MAX_RATE
    &&& s.waiting matches Some(p) ==> p.valid()
}

/// How far the list was played: while tracks play again, the track to come back
/// to, and else the current one.
pub open spec fn progress(s: PlayerState) -> int {
    match s.resume {
        Some(r) => r as int,
        None => s.index,
    }
}

/// Where the rest of the track list starts, behind the queued tracks.
pub open spec fn rest_start(s: PlayerState) -> int {
    tail_start(progress(s), s.play_next, s.tracks.len() as int)
}

/// The track list for another pass.
pub open spec fn pass_order(
    tracks: Seq<u64>,
    original: Seq<u64>,
    shuffle: bool,
    seed: u64,
) -> Seq<u64> {
    if shuffle {
        shuffled_from(tracks, seed)
    } else {
        restored(tracks, original)
    }
}

/// A list whose tracks from `start` on are put in another order.
pub open spec fn reordered(
    tracks: Seq<u64>,
    start: int,
    original: Seq<u64>,
    shuffle: bool,
    seed: u64,
) -> Seq<u64> {
    tracks.take(start) + pass_order(tracks.skip(start), original, shuffle, seed)
}

/// The track list after shuffle was turned on or off. A track of the rest that
/// plays already keeps its place.
pub open spec fn shuffle_order(s: PlayerState, shuffle: bool, seed: u64) -> Seq<u64> {
    if s.index < rest_start(s) {
        reordered(s.tracks, rest_start(s), s.original, shuffle, seed)
    } else {
        reordered(s.tracks.remove(s.index), rest_start(s), s.original, shuffle, seed).insert(
            s.index,
            s.tracks[s.index],
        )
    }
}

/// The tracks that shuffle puts in another order.
pub open spec fn unplayed(s: PlayerState) -> Seq<u64> {
    if s.index < rest_start(s) {
        s.tracks.skip(rest_start(s))
    } else {
        s.tracks.remove(s.index).skip(rest_start(s))
    }
}

/// The player with shuffle turned on or off.
pub open spec fn shuffle_toggled(s: PlayerState, seed: u64) -> PlayerState {
    PlayerState { shuffle: !s.shuffle, tracks: shuffle_order(s, !s.shuffle, seed), ..s }
}

/// The current track starts, or will when there is an audio output again.
pub open spec fn started(s: PlayerState) -> (PlayerState, PlayerAction) {
    (
        PlayerState {
            paused: false,
            last_skipped: None,
            waiting: match s.waiting {
                Some(_) => Some(Span { secs: 0, nanos: 0 }),
                None => None,
            },
            ..s
        },
        if s.waiting is Some {
            PlayerAction::Stay
        } else {
            PlayerAction::Start
        },
    )
}

/// Playback goes on behind the current track.
pub open spec fn advanced(s: PlayerState, natural_end: bool, seed: u64) -> (
    PlayerState,
    PlayerAction,
) {
    match forward_step(s.index, s.tracks.len() as int, s.loop_mode, natural_end, s.resume) {
        None => (PlayerState { resume: None, ..s }, PlayerAction::Exit(PlayerExit::Back)),
        Some(step) => started(
            PlayerState {
                index: step.0,
                tracks: if step.1 {
                    pass_order(s.tracks, s.original, s.shuffle, seed)
                } else {
                    s.tracks
                },
                play_next: if step.2 && s.play_next > 0 && !(natural_end && s.loop_mode
                    == LoopMode::One) {
                    s.play_next - 1
                } else {
                    s.play_next
                },
                resume: None,
                ..s
            },
        ),
    }
}

/// The track before the current one is played again.
pub open spec fn went_back(s: PlayerState) -> (PlayerState, PlayerAction) {
    started(
        PlayerState {
            index: previous_track(s.index, s.tracks.len() as int),
            resume: resume_point(s.index as usize, s.resume),
            ..s
        },
    )
}

pub open spec fn with_pause(s: PlayerState, paused: bool) -> (PlayerState, PlayerAction) {
    (PlayerState { paused, ..s }, PlayerAction::SetPaused(paused))
}

/// What Left and Right do: seek on YouTube, else change the volume a little.
pub open spec fn sideways(s: PlayerState, elapsed: Span, duration: Option<Span>, forward: bool) -> (
    PlayerState,
    PlayerAction,
) {
    if s.source != PlayerSource::YouTube {
        (
            s,
            PlayerAction::Volume(
                if forward {
                    1
                } else {
                    (-1) as i32
                },
            ),
        )
    } else if s.waiting is Some {
        (s, PlayerAction::Stay)
    } else {
        (
            PlayerState { last_skipped: None, ..s },
            PlayerAction::MoveTo(span_of(seek_moment(elapsed.total(), duration, forward))),
        )
    }
}

/// What the keys for the speed do on YouTube.
pub open spec fn change_rate(s: PlayerState, elapsed: Span, increase: bool) -> (
    PlayerState,
    PlayerAction,
) {
    let rate = next_rate(s.rate, increase);
    if s.source != PlayerSource::YouTube || rate == s.rate {
        (s, PlayerAction::Stay)
    } else {
        (
            PlayerState { rate, ..s },
            if s.waiting is Some {
                PlayerAction::Stay
            } else {
                PlayerAction::MoveTo(elapsed)
            },
        )
    }
}

/// What a character does.
pub open spec fn char_step(s: PlayerState, c: char, elapsed: Span, seed: u64) -> (
    PlayerState,
    PlayerAction,
) {
    if c == 'b' {
        (s, PlayerAction::Exit(PlayerExit::Back))
    } else if c == 'p' || c == ' ' {
        with_pause(s, !s.paused)
    } else if c == 'n' {
        advanced(s, false, seed)
    } else if c == 'v' {
        went_back(s)
    } else if c == '+' || c == '=' {
        (s, PlayerAction::Volume(10))
    } else if c == '-' {
        (s, PlayerAction::Volume((-10) as i32))
    } else if c == 'l' {
        (PlayerState { loop_mode: cycled(s.loop_mode), ..s }, PlayerAction::Stay)
    } else if c == 'r' {
        (shuffle_toggled(s, seed), PlayerAction::Stay)
    } else if c == 'u' {
        (s, PlayerAction::OpenQueue)
    } else if c == ',' || c == '.' {
        change_rate(s, elapsed, c == '.')
    } else if c == 's' && s.source == PlayerSource::YouTube {
        (PlayerState { sponsor: !s.sponsor, ..s }, PlayerAction::Stay)
    } else if c == 'a' && s.source == PlayerSource::YouTube {
        (s, PlayerAction::AddTracks)
    } else {
        (s, PlayerAction::Stay)
    }
}

/// What a key does. `elapsed` and `duration` are those of the current track;
/// the seed decides where the order is left to chance.
pub open spec fn player_step(
    s: PlayerState,
    press: KeyPress,
    elapsed: Span,
    duration: Option<Span>,
    seed: u64,
) -> (PlayerState, PlayerAction) {
    if quits(press) {
        (s, PlayerAction::Exit(PlayerExit::Quit))
    } else {
        match press.key {
            Key::Esc => (s, PlayerAction::Exit(PlayerExit::Back)),
            Key::Up => (s, PlayerAction::Volume(10)),
            Key::Down => (s, PlayerAction::Volume((-10) as i32)),
            Key::Left => sideways(s, elapsed, duration, false),
            Key::Right => sideways(s, elapsed, duration, true),
            Key::Char(c) => char_step(s, c, elapsed, seed),
            _ => (s, PlayerAction::Stay),
        }
    }
}

/// What a media button does.
pub open spec fn media_step(s: PlayerState, command: MediaCommand, seed: u64) -> (
    PlayerState,
    PlayerAction,
) {
    match command {
        MediaCommand::Play => with_pause(s, false),
        MediaCommand::Pause => with_pause(s, true),
        MediaCommand::Next => advanced(s, false, seed),
        MediaCommand::Previous => went_back(s),
    }
}

/// What becomes of the player when the queue is closed.
pub open spec fn queue_step(s: PlayerState, edit: QueueEdit, seed: u64) -> (
    PlayerState,
    PlayerAction,
) {
    if edit.finished {
        advanced(PlayerState { index: edit.index as int, ..s }, true, seed)
    } else if edit.restart {
        started(PlayerState { index: edit.index as int, resume: None, play_next: 0, ..s })
    } else {
        (
            PlayerState {
                index: edit.index as int,
                resume: if edit.index == s.index {
                    s.resume
                } else {
                    None
                },
                ..s
            },
            PlayerAction::Stay,
        )
    }
}

/// Whether the queue opens again: it stays open when the current track comes to
/// its end and another follows.
pub open spec fn reopens_queue(edit: QueueEdit, action: PlayerAction) -> bool {
    edit.finished && !(action is Exit)
}

/// Whether the queue opens again after it was closed with an action.
pub fn queue_reopens(edit: QueueEdit, action: PlayerAction) -> (r: bool)
    ensures
        r == reopens_queue(edit, action),
{
    match action {
        PlayerAction::Exit(_) => false,
        _ => edit.finished,
    }
}

/// The player with more tracks behind those that are queued. The current track
/// stays the current one. Tracks that are new to the player join the original
/// list.
pub open spec fn with_queued(s: PlayerState, additions: Seq<u64>, new: bool) -> PlayerState {
    if additions.len() == 0 {
        s
    } else {
        PlayerState {
            tracks: with_next(s.tracks, progress(s), s.play_next, additions),
            index: place_with(s.index, rest_start(s), additions.len() as int),
            play_next: s.play_next + additions.len(),
            original: if new {
                s.original + additions
            } else {
                s.original
            },
            ..s
        }
    }
}

/// The player after a key in the open queue, on whose row `row` the key was
/// pressed.
pub open spec fn queue_key_step(s: PlayerState, row: int, press: KeyPress) -> PlayerState {
    let selected = row_track(row, s.index, progress(s));
    if press.key == Key::Delete && can_unqueue(row, s.index, progress(s), s.play_next) {
        PlayerState {
            tracks: without_next(s.tracks, progress(s), s.play_next, selected),
            index: place_without(s.index, selected),
            play_next: s.play_next - 1,
            ..s
        }
    } else if press.key == Key::Enter && selected != s.index {
        PlayerState { play_next: 0, ..s }
    } else {
        s
    }
}

/// The player after tracks were added beside the queue, which turns shuffle
/// off.
pub open spec fn with_tracks(s: PlayerState, additions: Seq<u64>) -> PlayerState {
    PlayerState {
        shuffle: s.shuffle && additions.len() == 0,
        ..with_queued(s, additions, true)
    }
}

/// What the loss of the audio output does: YouTube waits, others end.
pub open spec fn lost_step(s: PlayerState, elapsed: Span) -> (PlayerState, PlayerAction) {
    if s.source == PlayerSource::YouTube {
        (
            PlayerState {
                waiting: match s.waiting {
                    Some(p) => Some(p),
                    None => Some(elapsed),
                },
                ..s
            },
            PlayerAction::Wait,
        )
    } else {
        (s, PlayerAction::Fail)
    }
}

/// What an audio output does to a player that waits for one.
pub open spec fn ready_step(s: PlayerState) -> (PlayerState, PlayerAction) {
    match s.waiting {
        Some(p) => (PlayerState { waiting: None, ..s }, PlayerAction::MoveTo(p)),
        None => (s, PlayerAction::Stay),
    }
}

/// Skips a segment around the current position.
pub open spec fn skip_step(s: PlayerState, elapsed: Span, segments: Seq<SponsorSegment>) -> (
    PlayerState,
    PlayerAction,
) {
    if !s.sponsor || s.waiting is Some {
        (s, PlayerAction::Stay)
    } else {
        match skip_target(segments, elapsed, s.last_skipped) {
            Some(segment) => (
                PlayerState { last_skipped: Some(segment), ..s },
                PlayerAction::MoveTo(segment.end),
            ),
            None => (s, PlayerAction::Stay),
        }
    }
}

impl Player {
    pub open spec fn view(&self) -> PlayerState {
        PlayerState {
            source: self.source,
            tracks: self.tracks@,
            original: self.original@,
            index: self.index as int,
            play_next: self.play_next as int,
            resume: self.resume,
            shuffle: self.shuffle,
            loop_mode: self.loop_mode,
            paused: self.paused,
            rate: self.rate as int,
            sponsor: self.sponsor,
            last_skipped: self.last_skipped,
            waiting: self.waiting,
        }
    }

    pub open spec fn wf(&self) -> bool {
        player_wf(self@)
    }

    /// A player at a track of a list, of which the tracks behind it may be
    /// queued. With shuffle the whole list is shuffled and its first track
    /// plays.
    pub fn new(
        source: PlayerSource,
        tracks: Vec<u64>,
        original: Vec<u64>,
        index: usize,
        shuffle: bool,
        play_next: usize,
    ) -> (r: Player)
        requires
            tracks@.len() > 0,
            play_next <= tracks@.len(),
        ensures
            r.wf(),
            exists|seed: u64|
                r@ == (PlayerState {
                    source,
                    tracks: if shuffle {
                        #[trigger] shuffled_from(tracks@, seed)
                    } else {
                        tracks@
                    },
                    original: original@,
                    index: if shuffle {
                        0
                    } else if index < tracks@.len() {
                        index as int
                    } else {
                        tracks@.len() - 1
                    },
                    play_next: play_next as int,
                    resume: None,
                    shuffle,
                    loop_mode: LoopMode::Off,
                    paused: false,
                    rate: 4,
                    sponsor: true,
                    last_skipped: None,
                    waiting: None,
                }),
    {
        let mut tracks = tracks;
        let ghost listed = tracks@;
        let last: usize = tracks.len() - 1;
        let mut index: usize = if index < last {
            index
        } else {
            last
        };
        if shuffle {
            shuffle_slice(tracks.as_mut_slice());
            index = 0;
        } else {
            assert(shuffled_from(listed, 0) == shuffled_from(listed, 0));
        }
        Player {
            source,
            tracks,
            original,
            index,
            play_next,
            resume: None,
            shuffle,
            loop_mode: LoopMode::Off,
            paused: false,
            rate: 4,
            sponsor: true,
            last_skipped: None,
            waiting: None,
        }
    }

    fn start(&mut self) -> (r: PlayerAction)
        requires
            old(self).wf(),
        ensures
            final(self).wf(),
            (final(self)@, r) == started(old(self)@),
    {
        self.paused = false;
        self.last_skipped = None;
        if self.waiting.is_some() {
            self.waiting = Some(Span { secs: 0, nanos: 0 });
            PlayerAction::Stay
        } else {
            PlayerAction::Start
        }
    }

    fn advance(&mut self, natural_end: bool) -> (r: PlayerAction)
        requires
            old(self).wf(),
        ensures
            final(self).wf(),
            exists|seed: u64|
                (final(self)@, r) == #[trigger] advanced(old(self)@, natural_end, seed),
    {
        let ghost before = self@;
        let count: usize = self.tracks.len();
        let mut resume = self.resume;
        let step = forward_track_index(
            self.index,
            count,
            self.loop_mode,
            natural_end,
            &mut resume,
        );
        self.resume = None;
        match step {
            None => {
                let r = PlayerAction::Exit(PlayerExit::Back);
                assert((self@, r) == advanced(before, natural_end, 0));
                r
            },
            Some(step) => {
                let (next, new_pass, uses_queued) = step;
                let ghost mut seed: u64 = 0;
                if new_pass {
                    restart_pass_order(&mut self.tracks, self.original.as_slice(), self.shuffle);
                    proof {
                        if before.shuffle {
                            seed = choose|seed: u64|
                                self.tracks@ == #[trigger] shuffled_from(before.tracks, seed);
                        }
                        assert(self.tracks@ == pass_order(
                            before.tracks,
                            before.original,
                            before.shuffle,
                            seed,
                        ));
                    }
                }
                if uses_queued && self.play_next > 0 && !(natural_end && self.loop_mode
                    == LoopMode::One) {
                    self.play_next = self.play_next - 1;
                }
                self.index = next;
                let r = self.start();
                assert((self@, r) == advanced(before, natural_end, seed));
                r
            },
        }
    }

    fn go_back(&mut self) -> (r: PlayerAction)
        requires
            old(self).wf(),
        ensures
            final(self).wf(),
            (final(self)@, r) == went_back(old(self)@),
    {
        let count: usize = self.tracks.len();
        let mut resume = self.resume;
        self.index = previous_track_index(self.index, count, &mut resume);
        self.resume = resume;
        self.start()
    }

    /// How far the list was played.
    pub fn progress(&self) -> (r: usize)
        requires
            self.wf(),
        ensures
            r == progress(self@),
            r < self@.tracks.len(),
    {
        match self.resume {
            Some(index) => index,
            None => self.index,
        }
    }

    fn toggle_shuffle(&mut self)
        requires
            old(self).wf(),
        ensures
            final(self).wf(),
            exists|seed: u64|
                final(self)@ == #[trigger] shuffle_toggled(old(self)@, seed),
    {
        let ghost before = self@;
        let ghost mut seed: u64 = 0;
        let shuffle = !self.shuffle;
        let index: usize = self.index;
        let play_next: usize = self.play_next;
        let progress: usize = self.progress();
        let start: usize = tail_index(progress, play_next, self.tracks.len());
        if index < start {
            set_shuffle_order(
                &mut self.tracks,
                progress,
                play_next,
                self.original.as_slice(),
                shuffle,
            );
            proof {
                lemma_reordered(
                    before.tracks,
                    self.tracks@,
                    start as int,
                    before.original,
                    shuffle,
                );
                seed = choose|seed: u64|
                    self.tracks@ == #[trigger] reordered(
                        before.tracks,
                        start as int,
                        before.original,
                        shuffle,
                        seed,
                    );
            }
        } else {
            let track: u64 = self.tracks.remove(index);
            let ghost others = self.tracks@;
            set_shuffle_order(
                &mut self.tracks,
                progress,
                play_next,
                self.original.as_slice(),
                shuffle,
            );
            proof {
                lemma_reordered(others, self.tracks@, start as int, before.original, shuffle);
                seed = choose|seed: u64|
                    self.tracks@ == #[trigger] reordered(
                        others,
                        start as int,
                        before.original,
                        shuffle,
                        seed,
                    );
            }
            self.tracks.insert(index, track);
        }
        self.shuffle = shuffle;
        assert(self@ == shuffle_toggled(before, seed));
    }

    /// Takes a key, with the position in the current track and its length.
    pub fn key(&mut self, press: KeyPress, elapsed: Span, duration: Option<Span>) -> (r:
        PlayerAction)
        requires
            old(self).wf(),
            elapsed.valid(),
            duration matches Some(total) ==> total.valid(),
        ensures
            final(self).wf(),
            exists|seed: u64|
                (final(self)@, r) == #[trigger] player_step(
                    old(self)@,
                    press,
                    elapsed,
                    duration,
                    seed,
                ),
    {
        let ghost before = self@;
        if menu_quit_key(press) {
            let r = PlayerAction::Exit(PlayerExit::Quit);
            assert((self@, r) == player_step(before, press, elapsed, duration, 0));
            return r;
        }
        match press.key {
            Key::Left => {
                let r = self.sideways(elapsed, duration, false);
                assert((self@, r) == player_step(before, press, elapsed, duration, 0));
                r
            },
            Key::Right => {
                let r = self.sideways(elapsed, duration, true);
                assert((self@, r) == player_step(before, press, elapsed, duration, 0));
                r
            },
            Key::Char(c) => {
                let r = self.char_key(c, elapsed);
                proof {
                    let seed = choose|seed: u64|
                        (self@, r) == #[trigger] char_step(before, c, elapsed, seed);
                    assert((self@, r) == player_step(before, press, elapsed, duration, seed));
                }
                r
            },
            Key::Esc => {
                let r = PlayerAction::Exit(PlayerExit::Back);
                assert((self@, r) == player_step(before, press, elapsed, duration, 0));
                r
            },
            Key::Up => {
                let r = PlayerAction::Volume(10);
                assert((self@, r) == player_step(before, press, elapsed, duration, 0));
                r
            },
            Key::Down => {
                let r = PlayerAction::Volume(-10);
                assert((self@, r) == player_step(before, press, elapsed, duration, 0));
                r
            },
            _ => {
                let r = PlayerAction::Stay;
                assert((self@, r) == player_step(before, press, elapsed, duration, 0));
                r
            },
        }
    }

    fn sideways(&mut self, elapsed: Span, duration: Option<Span>, forward: bool) -> (r:
        PlayerAction)
        requires
            old(self).wf(),
            elapsed.valid(),
            duration matches Some(total) ==> total.valid(),
        ensures
            final(self).wf(),
            (final(self)@, r) == sideways(old(self)@, elapsed, duration, forward),
    {
        if self.source != PlayerSource::YouTube {
            return PlayerAction::Volume(
                if forward {
                    1
                } else {
                    -1
                },
            );
        }
        if self.waiting.is_some() {
            return PlayerAction::Stay;
        }
        let target = seek_target(elapsed, duration, forward);
        proof {
            lemma_span_of(target);
        }
        self.last_skipped = None;
        PlayerAction::MoveTo(target)
    }

    fn change_rate(&mut self, elapsed: Span, increase: bool) -> (r: PlayerAction)
        requires
            old(self).wf(),
        ensures
            final(self).wf(),
            (final(self)@, r) == change_rate(old(self)@, elapsed, increase),
    {
        if self.source != PlayerSource::YouTube {
            return PlayerAction::Stay;
        }
        let rate: u32 = stepped_rate(self.rate, increase);
        if rate == self.rate {
            return PlayerAction::Stay;
        }
        self.rate = rate;
        if self.waiting.is_some() {
            PlayerAction::Stay
        } else {
            PlayerAction::MoveTo(elapsed)
        }
    }

    fn char_key(&mut self, c: char, elapsed: Span) -> (r: PlayerAction)
        requires
            old(self).wf(),
        ensures
            final(self).wf(),
            exists|seed: u64|
                (final(self)@, r) == #[trigger] char_step(old(self)@, c, elapsed, seed),
    {
        let ghost before = self@;
        let ghost mut seed: u64 = 0;
        let r = if c == 'b' {
            PlayerAction::Exit(PlayerExit::Back)
        } else if c == 'p' || c == ' ' {
            self.paused = !self.paused;
            PlayerAction::SetPaused(self.paused)
        } else if c == 'n' {
            let r = self.advance(false);
            proof {
                seed = choose|seed: u64| (self@, r) == #[trigger] advanced(before, false, seed);
            }
            r
        } else if c == 'v' {
            self.go_back()
        } else if c == '+' || c == '=' {
            PlayerAction::Volume(10)
        } else if c == '-' {
            PlayerAction::Volume(-10)
        } else if c == 'l' {
            self.loop_mode = self.loop_mode.cycle();
            PlayerAction::Stay
        } else if c == 'r' {
            self.toggle_shuffle();
            proof {
                seed = choose|seed: u64|
                    self@ == #[trigger] shuffle_toggled(before, seed);
            }
            PlayerAction::Stay
        } else if c == 'u' {
            PlayerAction::OpenQueue
        } else if c == ',' || c == '.' {
            self.change_rate(elapsed, c == '.')
        } else if c == 's' && self.source == PlayerSource::YouTube {
            self.sponsor = !self.sponsor;
            PlayerAction::Stay
        } else if c == 'a' && self.source == PlayerSource::YouTube {
            PlayerAction::AddTracks
        } else {
            PlayerAction::Stay
        };
        assert((self@, r) == char_step(before, c, elapsed, seed));
        r
    }

    /// Takes a media button.
    pub fn media(&mut self, command: MediaCommand) -> (r: PlayerAction)
        requires
            old(self).wf(),
        ensures
            final(self).wf(),
            exists|seed: u64|
                (final(self)@, r) == #[trigger] media_step(old(self)@, command, seed),
    {
        let ghost before = self@;
        let ghost mut seed: u64 = 0;
        let r = match command {
            MediaCommand::Play => {
                self.paused = false;
                PlayerAction::SetPaused(false)
            },
            MediaCommand::Pause => {
                self.paused = true;
                PlayerAction::SetPaused(true)
            },
            MediaCommand::Next => {
                let r = self.advance(false);
                proof {
                    seed = choose|seed: u64| (self@, r) == #[trigger] advanced(before, false, seed);
                }
                r
            },
            MediaCommand::Previous => self.go_back(),
        };
        assert((self@, r) == media_step(before, command, seed));
        r
    }

    /// The current track has come to its end.
    pub fn track_finished(&mut self) -> (r: PlayerAction)
        requires
            old(self).wf(),
        ensures
            final(self).wf(),
            exists|seed: u64| (final(self)@, r) == #[trigger] advanced(old(self)@, true, seed),
    {
        self.advance(true)
    }

    /// Takes a key while the queue is open.
    pub fn queue_key(&mut self, editor: &mut QueueEditor, press: KeyPress) -> (r: QueueStep)
        requires
            old(self).wf(),
            old(editor).wf(old(self)@.tracks.len(), progress(old(self)@)),
        ensures
            final(self).wf(),
            final(editor).wf(final(self)@.tracks.len(), progress(final(self)@)),
            final(self)@ == queue_key_step(old(self)@, old(editor).row as int, press),
            ({
                let s = old(self)@;
                let row = old(editor).row as int;
                let selected = row_track(row, s.index, progress(s));
                let last = s.tracks.len() - 1 - progress(s);
                &&& final(editor).row == match press.key {
                    Key::Up => row_above(row, last),
                    Key::Down => row_below(row, last),
                    Key::Delete => smaller(row, final(self)@.tracks.len() - 1 - progress(s)),
                    _ => row,
                }
                &&& match press.key {
                    Key::Enter => r == QueueStep::Close(
                        QueueEdit {
                            index: selected as usize,
                            restart: s.tracks[selected] != s.tracks[s.index],
                            finished: false,
                        },
                    ),
                    Key::Esc => r == QueueStep::Close(
                        QueueEdit { index: s.index as usize, restart: false, finished: false },
                    ),
                    Key::Char(c) => r == if c == 'a' {
                        QueueStep::Add
                    } else {
                        QueueStep::Stay
                    },
                    _ => r == QueueStep::Stay,
                }
            }),
    {
        let ghost before = self@;
        let progress: usize = self.progress();
        let r = editor.key(
            &mut self.tracks,
            &mut self.index,
            progress,
            &mut self.play_next,
            press,
        );
        assert(self.resume is None ==> self.index == before.index);
        assert(self@ == queue_key_step(before, old(editor).row as int, press));
        r
    }

    /// Opens the queue.
    pub fn open_queue(&self) -> (r: QueueEditor)
        requires
            self.wf(),
        ensures
            r.wf(self@.tracks.len(), progress(self@)),
            r.row == 0,
    {
        QueueEditor::new()
    }

    /// The queue was closed.
    pub fn queue_closed(&mut self, edit: QueueEdit) -> (r: PlayerAction)
        requires
            old(self).wf(),
            edit.index < old(self)@.tracks.len(),
        ensures
            final(self).wf(),
            exists|seed: u64| (final(self)@, r) == #[trigger] queue_step(old(self)@, edit, seed),
    {
        let ghost before = self@;
        if edit.finished {
            self.index = edit.index;
            let ghost moved = self@;
            let r = self.advance(true);
            proof {
                let seed = choose|seed: u64|
                    (self@, r) == #[trigger] advanced(moved, true, seed);
                assert((self@, r) == queue_step(before, edit, seed));
            }
            return r;
        }
        if edit.restart {
            self.index = edit.index;
            self.resume = None;
            self.play_next = 0;
            let r = self.start();
            assert((self@, r) == queue_step(before, edit, 0));
            return r;
        }
        if edit.index != self.index {
            self.resume = None;
        }
        self.index = edit.index;
        assert((self@, PlayerAction::Stay) == queue_step(before, edit, 0));
        PlayerAction::Stay
    }

    /// Queues more tracks behind those that are queued.
    pub fn queue_tracks(&mut self, additions: Vec<u64>, new: bool)
        requires
            old(self).wf(),
            old(self)@.tracks.len() + additions@.len() <= usize::MAX,
        ensures
            final(self).wf(),
            final(self)@ == with_queued(old(self)@, additions@, new),
    {
        if additions.len() == 0 {
            return;
        }
        if new {
            let mut copy: Vec<u64> = Vec::new();
            let mut i: usize = 0;
            while i < additions.len()
                invariant
                    i <= additions@.len(),
                    copy@ =~= additions@.take(i as int),
                decreases additions@.len() - i,
            {
                copy.push(additions[i]);
                i += 1;
            }
            assert(copy@ =~= additions@);
            self.original.append(&mut copy);
        }
        let progress: usize = self.progress();
        add_next(
            &mut self.tracks,
            &mut self.index,
            progress,
            &mut self.play_next,
            additions,
        );
    }

    /// Adds tracks beside the queue: they are queued, and shuffle is off.
    pub fn add_tracks(&mut self, additions: Vec<u64>)
        requires
            old(self).wf(),
            old(self)@.tracks.len() + additions@.len() <= usize::MAX,
        ensures
            final(self).wf(),
            final(self)@ == with_tracks(old(self)@, additions@),
    {
        if additions.len() > 0 {
            self.shuffle = false;
        }
        self.queue_tracks(additions, true);
    }

    /// The audio output has gone at a position of the current track.
    pub fn output_lost(&mut self, elapsed: Span) -> (r: PlayerAction)
        requires
            old(self).wf(),
            elapsed.valid(),
        ensures
            final(self).wf(),
            (final(self)@, r) == lost_step(old(self)@, elapsed),
    {
        if self.source != PlayerSource::YouTube {
            return PlayerAction::Fail;
        }
        if self.waiting.is_none() {
            self.waiting = Some(elapsed);
        }
        PlayerAction::Wait
    }

    /// There is an audio output.
    pub fn output_ready(&mut self) -> (r: PlayerAction)
        requires
            old(self).wf(),
        ensures
            final(self).wf(),
            (final(self)@, r) == ready_step(old(self)@),
    {
        match self.waiting {
            Some(position) => {
                self.waiting = None;
                PlayerAction::MoveTo(position)
            },
            None => PlayerAction::Stay,
        }
    }

    /// Skips a segment of the current track where one is due.
    pub fn skip_segment(&mut self, elapsed: Span, segments: &[SponsorSegment]) -> (r: PlayerAction)
        requires
            old(self).wf(),
            elapsed.valid(),
            forall|i: int| 0 <= i < segments@.len() ==> (#[trigger] segments@[i]).valid(),
        ensures
            final(self).wf(),
            (final(self)@, r) == skip_step(old(self)@, elapsed, segments@),
    {
        if !self.sponsor || self.waiting.is_some() {
            return PlayerAction::Stay;
        }
        match sponsor_skip_target(segments, elapsed, self.last_skipped) {
            Some(segment) => {
                self.last_skipped = Some(segment);
                PlayerAction::MoveTo(segment.end)
            },
            None => PlayerAction::Stay,
        }
    }
}

// ---------------------------------------------------------------------------
// What holds of every player
// ---------------------------------------------------------------------------

proof fn lemma_pass_order(tracks: Seq<u64>, original: Seq<u64>, shuffle: bool, seed: u64)
    ensures
        pass_order(tracks, original, shuffle, seed).len() == tracks.len(),
        pass_order(tracks, original, shuffle, seed).to_multiset() == tracks.to_multiset(),
{
    crate::queue::shuffle_is_a_permutation(tracks, seed);
    crate::queue::restoring_is_a_permutation(tracks, original);
}

proof fn lemma_reordered(
    before: Seq<u64>,
    after: Seq<u64>,
    start: int,
    original: Seq<u64>,
    shuffle: bool,
)
    requires
        0 <= start <= before.len(),
        after.len() == before.len(),
        after.take(start) == before.take(start),
        shuffle ==> exists|seed: u64|
            after.skip(start) == #[trigger] shuffled_from(before.skip(start), seed),
        !shuffle ==> after.skip(start) == restored(before.skip(start), original),
    ensures
        exists|seed: u64| after == #[trigger] reordered(before, start, original, shuffle, seed),
{
    let seed = if shuffle {
        choose|seed: u64| after.skip(start) == #[trigger] shuffled_from(before.skip(start), seed)
    } else {
        0
    };
    assert(after =~= after.take(start) + after.skip(start));
    assert(after == reordered(before, start, original, shuffle, seed));
}

/// Turning shuffle on or off leaves what was played, the current track and the
/// queued tracks in their places, also while a track plays again, and it loses
/// no track.
pub proof fn shuffle_moves_only_the_rest(s: PlayerState, seed: u64)
    requires
        player_wf(s),
    ensures
        ({
            let after = char_step(s, 'r', Span { secs: 0, nanos: 0 }, seed).0;
            let start = rest_start(s);
            &&& progress(s) < start
            &&& after.tracks.len() == s.tracks.len()
            &&& after.tracks.take(start) == s.tracks.take(start)
            &&& unplayed(after) == pass_order(unplayed(s), s.original, !s.shuffle, seed)
            &&& unplayed(after).to_multiset() == unplayed(s).to_multiset()
            &&& after.tracks[s.index] == s.tracks[s.index]
            &&& after.index == s.index
            &&& after.play_next == s.play_next
            &&& after.resume == s.resume
        }),
{
    let after = char_step(s, 'r', Span { secs: 0, nanos: 0 }, seed).0;
    let start = rest_start(s);
    let rest = unplayed(s);
    lemma_pass_order(rest, s.original, !s.shuffle, seed);
    let turned = pass_order(rest, s.original, !s.shuffle, seed);
    if s.index < start {
        assert(after.tracks.skip(start) =~= turned);
        assert(after.tracks.take(start) =~= s.tracks.take(start));
        assert(after.tracks.take(start)[s.index] == s.tracks.take(start)[s.index]);
    } else {
        let others = s.tracks.remove(s.index);
        assert(others.take(start) =~= s.tracks.take(start));
        assert(after.tracks.remove(s.index) =~= others.take(start) + turned);
        assert(after.tracks.remove(s.index).skip(start) =~= turned);
        assert(after.tracks.take(start) =~= s.tracks.take(start));
    }
}

/// Turning shuffle on and then off again changes nothing, where the rest of the
/// track list is in the order of the original list.
pub proof fn shuffle_off_restores_the_order(s: PlayerState, seed: u64)
    requires
        player_wf(s),
        !s.shuffle,
        restored(unplayed(s), s.original) == unplayed(s),
        unplayed(s).to_multiset().subset_of(s.original.to_multiset()),
    ensures
        ({
            let on = char_step(s, 'r', Span { secs: 0, nanos: 0 }, seed).0;
            char_step(on, 'r', Span { secs: 0, nanos: 0 }, seed).0 == s
        }),
{
    let start = rest_start(s);
    let on = char_step(s, 'r', Span { secs: 0, nanos: 0 }, seed).0;
    let off = char_step(on, 'r', Span { secs: 0, nanos: 0 }, seed).0;
    shuffle_moves_only_the_rest(s, seed);
    shuffle_moves_only_the_rest(on, seed);
    crate::queue::restoring_forgets_the_order(unplayed(on), unplayed(s), s.original);
    assert(unplayed(off) == unplayed(s));
    if s.index < start {
        assert(off.tracks =~= off.tracks.take(start) + off.tracks.skip(start));
        assert(s.tracks =~= s.tracks.take(start) + s.tracks.skip(start));
    } else {
        let a = off.tracks.remove(s.index);
        let b = s.tracks.remove(s.index);
        assert(a.take(start) =~= off.tracks.take(start));
        assert(b.take(start) =~= s.tracks.take(start));
        assert(a =~= a.take(start) + a.skip(start));
        assert(b =~= b.take(start) + b.skip(start));
        assert(off.tracks =~= a.insert(s.index, off.tracks[s.index]));
        assert(s.tracks =~= b.insert(s.index, s.tracks[s.index]));
    }
    assert(off.tracks == s.tracks);
}

proof fn lemma_reordered_keeps(
    tracks: Seq<u64>,
    start: int,
    original: Seq<u64>,
    shuffle: bool,
    seed: u64,
)
    requires
        0 <= start <= tracks.len(),
    ensures
        reordered(tracks, start, original, shuffle, seed).len() == tracks.len(),
        reordered(tracks, start, original, shuffle, seed).to_multiset() == tracks.to_multiset(),
{
    let head = tracks.take(start);
    let tail = tracks.skip(start);
    let turned = pass_order(tail, original, shuffle, seed);
    lemma_pass_order(tail, original, shuffle, seed);
    assert(tracks =~= head + tail);
    vstd::seq_lib::lemma_multiset_commutative(head, tail);
    vstd::seq_lib::lemma_multiset_commutative(head, turned);
    assert((head + turned).to_multiset() =~= (head + tail).to_multiset());
}

proof fn lemma_shuffle_order_keeps(s: PlayerState, shuffle: bool, seed: u64)
    requires
        player_wf(s),
    ensures
        shuffle_order(s, shuffle, seed).len() == s.tracks.len(),
        shuffle_order(s, shuffle, seed).to_multiset() == s.tracks.to_multiset(),
{
    let start = rest_start(s);
    if s.index < start {
        lemma_reordered_keeps(s.tracks, start, s.original, shuffle, seed);
    } else {
        let others = s.tracks.remove(s.index);
        let turned = reordered(others, start, s.original, shuffle, seed);
        let track = s.tracks[s.index];
        lemma_reordered_keeps(others, start, s.original, shuffle, seed);
        vstd::seq_lib::to_multiset_insert(turned, s.index, track);
        vstd::seq_lib::to_multiset_insert(others, s.index, track);
        assert(others.insert(s.index, track) =~= s.tracks);
    }
}

/// No key loses or adds a track.
pub proof fn keys_keep_every_track(
    s: PlayerState,
    press: KeyPress,
    elapsed: Span,
    duration: Option<Span>,
    seed: u64,
)
    requires
        player_wf(s),
    ensures
        player_step(s, press, elapsed, duration, seed).0.tracks.to_multiset()
            == s.tracks.to_multiset(),
        player_step(s, press, elapsed, duration, seed).0.tracks.len() == s.tracks.len(),
{
    lemma_pass_order(s.tracks, s.original, s.shuffle, seed);
    lemma_shuffle_order_keeps(s, !s.shuffle, seed);
}

/// A pass without loop ends behind the last track, and only loop mode `All`
/// starts another.
pub proof fn pass_ends_behind_the_last_track(s: PlayerState, natural_end: bool, seed: u64)
    requires
        player_wf(s),
        s.resume is None,
        s.index == s.tracks.len() - 1,
    ensures
        s.loop_mode == LoopMode::Off ==> advanced(s, natural_end, seed).1 == PlayerAction::Exit(
            PlayerExit::Back,
        ),
        s.loop_mode == LoopMode::All ==> advanced(s, natural_end, seed).0.index == 0,
        s.loop_mode == LoopMode::One && natural_end ==> advanced(s, natural_end, seed).0.index
            == s.index && advanced(s, natural_end, seed).0.play_next == s.play_next,
{
}

/// The player after several replays.
pub open spec fn replayed_player(s: PlayerState, steps: nat) -> PlayerState
    decreases steps,
{
    if steps == 0 {
        s
    } else {
        went_back(replayed_player(s, (steps - 1) as nat)).0
    }
}

proof fn lemma_replayed(s: PlayerState, steps: nat)
    requires
        player_wf(s),
        s.resume is None,
    ensures
        ({
            let r = replayed_player(s, steps);
            &&& player_wf(r)
            &&& r.tracks == s.tracks
            &&& r.play_next == s.play_next
            &&& r.loop_mode == s.loop_mode
            &&& steps > 0 ==> r.resume == Some(s.index as usize)
            &&& steps == 0 ==> r == s
        }),
    decreases steps,
{
    if steps > 0 {
        lemma_replayed(s, (steps - 1) as nat);
    }
}

/// However often the track before is replayed, the next step forward, by hand
/// or at the end of a track, comes back to where the replays started and uses
/// up no queued track.
pub proof fn replays_do_not_change_progress(
    s: PlayerState,
    steps: nat,
    natural_end: bool,
    seed: u64,
)
    requires
        player_wf(s),
        s.resume is None,
        steps > 0,
        s.tracks.len() <= usize::MAX,
    ensures
        ({
            let after = advanced(replayed_player(s, steps), natural_end, seed).0;
            &&& after.index == s.index
            &&& after.tracks == s.tracks
            &&& after.play_next == s.play_next
            &&& after.resume is None
        }),
{
    lemma_replayed(s, steps);
}

/// When the audio output goes and comes back, a YouTube player goes on at the
/// position, the speed and the pause that it had.
pub proof fn youtube_resumes_where_it_was(s: PlayerState, elapsed: Span)
    requires
        s.source == PlayerSource::YouTube,
        s.waiting is None,
    ensures
        ({
            let lost = lost_step(s, elapsed);
            let ready = ready_step(lost.0);
            &&& lost.1 == PlayerAction::Wait
            &&& ready.1 == PlayerAction::MoveTo(elapsed)
            &&& ready.0 == s
        }),
{
}

/// The current track stays what it is while tracks are queued, and the first of
/// them is the next to play once a replay, if there is one, has come back.
pub proof fn added_tracks_play_next(
    s: PlayerState,
    additions: Seq<u64>,
    new: bool,
    seed: u64,
)
    requires
        player_wf(s),
        s.play_next == 0,
        additions.len() > 0,
    ensures
        ({
            let queued = with_queued(s, additions, new);
            let back = if s.resume is Some {
                advanced(queued, false, seed).0
            } else {
                queued
            };
            let next = advanced(back, false, seed).0;
            &&& queued.tracks[queued.index] == s.tracks[s.index]
            &&& back.tracks[back.index] == s.tracks[progress(s)]
            &&& next.tracks[next.index] == additions[0]
            &&& next.play_next == additions.len() - 1
        }),
{
    let queued = with_queued(s, additions, new);
    assert(queued.tracks[progress(s) + 1] == additions[0]);
}

/// The queue stays open when a track ends, exactly where another track follows
/// it.
pub proof fn queue_stays_open_between_tracks(s: PlayerState, seed: u64)
    requires
        player_wf(s),
        s.index <= usize::MAX,
    ensures
        ({
            let edit = QueueEdit { index: s.index as usize, restart: false, finished: true };
            let next = forward_step(
                s.index,
                s.tracks.len() as int,
                s.loop_mode,
                true,
                s.resume,
            );
            reopens_queue(edit, queue_step(s, edit, seed).1) <==> next is Some
        }),
{
}

// ---------------------------------------------------------------------------
// One pass over the track list
// ---------------------------------------------------------------------------

/// Whatever happens to a player.
pub enum PlayerEvent {
    Key { press: KeyPress, elapsed: Span, duration: Option<Span> },
    Media(MediaCommand),
    Finished,
    Queued { additions: Seq<u64>, new: bool },
    Added(Seq<u64>),
    QueueKey { row: int, press: KeyPress },
    QueueClosed(QueueEdit),
    OutputLost(Span),
    OutputReady,
    Skipped { elapsed: Span, segments: Seq<SponsorSegment> },
}

/// The player after an event.
pub open spec fn event_step(s: PlayerState, event: PlayerEvent, seed: u64) -> PlayerState {
    match event {
        PlayerEvent::Key { press, elapsed, duration } => player_step(
            s,
            press,
            elapsed,
            duration,
            seed,
        ).0,
        PlayerEvent::Media(command) => media_step(s, command, seed).0,
        PlayerEvent::Finished => advanced(s, true, seed).0,
        PlayerEvent::Queued { additions, new } => with_queued(s, additions, new),
        PlayerEvent::Added(additions) => with_tracks(s, additions),
        PlayerEvent::QueueKey { row, press } => queue_key_step(s, row, press),
        PlayerEvent::QueueClosed(edit) => queue_step(s, edit, seed).0,
        PlayerEvent::OutputLost(elapsed) => lost_step(s, elapsed).0,
        PlayerEvent::OutputReady => ready_step(s).0,
        PlayerEvent::Skipped { elapsed, segments } => skip_step(s, elapsed, segments).0,
    }
}

/// Whether an event can happen: added tracks fit in the list, a row of the queue
/// exists, and a queue that closes leaves the current track or chose one to
/// come.
pub open spec fn can_happen(s: PlayerState, event: PlayerEvent) -> bool {
    match event {
        PlayerEvent::Queued { additions, .. } => s.tracks.len() + additions.len() <= usize::MAX,
        PlayerEvent::Added(additions) => s.tracks.len() + additions.len() <= usize::MAX,
        PlayerEvent::QueueKey { row, .. } => 0 <= row < s.tracks.len() - progress(s),
        PlayerEvent::QueueClosed(edit) => if edit.index == s.index {
            !edit.restart
        } else {
            progress(s) < edit.index < s.tracks.len() && !edit.finished
        },
        PlayerEvent::OutputLost(elapsed) => elapsed.valid(),
        _ => true,
    }
}

/// Whether the next step forward starts another pass.
pub open spec fn pass_is_over(s: PlayerState, natural_end: bool) -> bool {
    match forward_step(s.index, s.tracks.len() as int, s.loop_mode, natural_end, s.resume) {
        Some(step) => step.1,
        None => false,
    }
}

/// Whether an event starts another pass over the list.
pub open spec fn starts_pass(s: PlayerState, event: PlayerEvent) -> bool {
    match event {
        PlayerEvent::Key { press, .. } => !quits(press) && press.key == Key::Char('n')
            && pass_is_over(s, false),
        PlayerEvent::Media(command) => command == MediaCommand::Next && pass_is_over(s, false),
        PlayerEvent::Finished => pass_is_over(s, true),
        PlayerEvent::QueueClosed(edit) => edit.finished && pass_is_over(s, true),
        _ => false,
    }
}

/// Whether an event leaves tracks out: another track was chosen in the queue.
pub open spec fn jumps(s: PlayerState, event: PlayerEvent) -> bool {
    match event {
        PlayerEvent::QueueClosed(edit) => edit.index != s.index,
        _ => false,
    }
}

/// What one event within a pass leaves as it is, and how far progress goes.
pub open spec fn keeps_consumed(s: PlayerState, after: PlayerState, jumps: bool) -> bool {
    &&& player_wf(after)
    &&& after.tracks.len() <= usize::MAX
    &&& after.tracks.take(progress(s) + 1) == s.tracks.take(progress(s) + 1)
    &&& progress(after) >= progress(s)
    &&& !jumps ==> progress(after) <= progress(s) + 1
    &&& progress(after) > progress(s) ==> after.index == progress(after) && after.resume is None
}

proof fn lemma_advanced_keeps(s: PlayerState, natural_end: bool, seed: u64)
    requires
        player_wf(s),
        s.tracks.len() <= usize::MAX,
        !pass_is_over(s, natural_end),
    ensures
        keeps_consumed(s, advanced(s, natural_end, seed).0, false),
{
}

proof fn lemma_key_keeps(
    s: PlayerState,
    press: KeyPress,
    elapsed: Span,
    duration: Option<Span>,
    seed: u64,
)
    requires
        player_wf(s),
        s.tracks.len() <= usize::MAX,
        !starts_pass(s, PlayerEvent::Key { press, elapsed, duration }),
    ensures
        keeps_consumed(s, player_step(s, press, elapsed, duration, seed).0, false),
{
    if !quits(press) && press.key == Key::Char('n') {
        lemma_advanced_keeps(s, false, seed);
    } else if press.key == Key::Char('r') {
        let played = progress(s) + 1;
        let turned = shuffle_toggled(s, seed);
        shuffle_moves_only_the_rest(s, seed);
        assert(turned.tracks.take(played) =~= turned.tracks.take(rest_start(s)).take(played));
        assert(s.tracks.take(played) =~= s.tracks.take(rest_start(s)).take(played));
    }
}

proof fn lemma_queued_keeps(s: PlayerState, additions: Seq<u64>, new: bool)
    requires
        player_wf(s),
        s.tracks.len() + additions.len() <= usize::MAX,
    ensures
        keeps_consumed(s, with_queued(s, additions, new), false),
{
    let after = with_queued(s, additions, new);
    assert(after.tracks.take(progress(s) + 1) =~= s.tracks.take(progress(s) + 1));
}

proof fn lemma_queue_key_keeps(s: PlayerState, row: int, press: KeyPress)
    requires
        player_wf(s),
        s.tracks.len() <= usize::MAX,
        0 <= row < s.tracks.len() - progress(s),
    ensures
        keeps_consumed(s, queue_key_step(s, row, press), false),
{
    let after = queue_key_step(s, row, press);
    assert(after.tracks.take(progress(s) + 1) =~= s.tracks.take(progress(s) + 1));
}

/// What was played of a list stays as it is, whatever happens within a pass, and
/// progress never goes back: it stays, or it goes one track on, which then
/// plays. Only a choice in the queue takes it further.
pub proof fn events_keep_consumed_tracks(s: PlayerState, event: PlayerEvent, seed: u64)
    requires
        player_wf(s),
        s.tracks.len() <= usize::MAX,
        can_happen(s, event),
        !starts_pass(s, event),
    ensures
        keeps_consumed(s, event_step(s, event, seed), jumps(s, event)),
{
    match event {
        PlayerEvent::Key { press, elapsed, duration } => {
            lemma_key_keeps(s, press, elapsed, duration, seed);
        },
        PlayerEvent::Media(command) => {
            if command == MediaCommand::Next {
                lemma_advanced_keeps(s, false, seed);
            }
        },
        PlayerEvent::Finished => {
            lemma_advanced_keeps(s, true, seed);
        },
        PlayerEvent::Queued { additions, new } => {
            lemma_queued_keeps(s, additions, new);
        },
        PlayerEvent::Added(additions) => {
            lemma_queued_keeps(s, additions, true);
        },
        PlayerEvent::QueueKey { row, press } => {
            lemma_queue_key_keeps(s, row, press);
        },
        PlayerEvent::QueueClosed(edit) => {
            if edit.finished {
                assert((PlayerState { index: edit.index as int, ..s }) == s);
                lemma_advanced_keeps(s, true, seed);
            }
        },
        _ => {},
    }
}

/// The tracks up to where the list was played stay in their places, whatever key
/// is pressed within a pass, and progress stays or goes one track on.
pub proof fn consumed_tracks_stay(
    s: PlayerState,
    press: KeyPress,
    elapsed: Span,
    duration: Option<Span>,
    seed: u64,
)
    requires
        player_wf(s),
        s.tracks.len() <= usize::MAX,
        !starts_pass(s, PlayerEvent::Key { press, elapsed, duration }),
    ensures
        ({
            let after = player_step(s, press, elapsed, duration, seed).0;
            &&& after.tracks.take(progress(s) + 1) == s.tracks.take(progress(s) + 1)
            &&& progress(after) == progress(s) || progress(after) == progress(s) + 1
        }),
{
    events_keep_consumed_tracks(s, PlayerEvent::Key { press, elapsed, duration }, seed);
}

/// Shuffle and every edit of the queue leave the current track the current one.
pub proof fn edits_keep_the_current_track(s: PlayerState, event: PlayerEvent, seed: u64)
    requires
        player_wf(s),
        can_happen(s, event),
        match event {
            PlayerEvent::Key { press, .. } => press.key == Key::Char('r'),
            PlayerEvent::Queued { .. } => true,
            PlayerEvent::Added(_) => true,
            PlayerEvent::QueueKey { .. } => true,
            _ => false,
        },
    ensures
        ({
            let after = event_step(s, event, seed);
            &&& after.tracks[after.index] == s.tracks[s.index]
            &&& after.resume == s.resume
            &&& progress(after) == progress(s)
        }),
{
    shuffle_moves_only_the_rest(s, seed);
}

/// A step forward while a track plays again comes back to the track at
/// `progress`, and uses up no queued track.
pub proof fn replays_come_back(s: PlayerState, natural_end: bool, seed: u64)
    requires
        player_wf(s),
        s.resume is Some,
    ensures
        ({
            let after = advanced(s, natural_end, seed).0;
            &&& after.index == progress(s)
            &&& after.tracks == s.tracks
            &&& after.play_next == s.play_next
            &&& after.resume is None
        }),
{
}

/// The player after several events; each comes with the seed for what is left to
/// chance.
pub open spec fn after_events(s: PlayerState, events: Seq<(PlayerEvent, u64)>) -> PlayerState
    decreases events.len(),
{
    if events.len() == 0 {
        s
    } else {
        let (event, seed) = events.last();
        event_step(after_events(s, events.drop_last()), event, seed)
    }
}

/// Whether the events can happen one after the other within one pass.
pub open spec fn within_pass(s: PlayerState, events: Seq<(PlayerEvent, u64)>) -> bool
    decreases events.len(),
{
    events.len() == 0 || {
        let before = after_events(s, events.drop_last());
        let event = events.last().0;
        &&& within_pass(s, events.drop_last())
        &&& can_happen(before, event)
        &&& !starts_pass(before, event)
    }
}

/// Whether no other track is chosen in the queue.
pub open spec fn without_jumps(s: PlayerState, events: Seq<(PlayerEvent, u64)>) -> bool
    decreases events.len(),
{
    events.len() == 0 || without_jumps(s, events.drop_last()) && !jumps(
        after_events(s, events.drop_last()),
        events.last().0,
    )
}

/// The entries of the list that were consumed, by their places and in the order
/// in which their turn came, starting with the one that plays at first.
pub open spec fn consumed_places(s: PlayerState, events: Seq<(PlayerEvent, u64)>) -> Seq<int>
    decreases events.len(),
{
    if events.len() == 0 {
        seq![progress(s)]
    } else {
        let places = consumed_places(s, events.drop_last());
        let reached = progress(after_events(s, events));
        if reached == places.last() {
            places
        } else {
            places.push(reached)
        }
    }
}

/// The tracks that were consumed, each as it stood in the list when its turn
/// came.
pub open spec fn consumed_tracks(s: PlayerState, events: Seq<(PlayerEvent, u64)>) -> Seq<u64>
    decreases events.len(),
{
    if events.len() == 0 {
        seq![s.tracks[progress(s)]]
    } else {
        let tracks = consumed_tracks(s, events.drop_last());
        let before = after_events(s, events.drop_last());
        let after = after_events(s, events);
        if progress(after) == progress(before) {
            tracks
        } else {
            tracks.push(after.tracks[progress(after)])
        }
    }
}

/// Within a pass every entry of the list is consumed at most once, whatever is
/// pressed, queued, unqueued, shuffled and replayed meanwhile: the places of the
/// consumed entries only ascend, and the tracks up to where a pass began stay.
pub proof fn pass_consumes_an_entry_at_most_once(
    s: PlayerState,
    events: Seq<(PlayerEvent, u64)>,
)
    requires
        player_wf(s),
        s.tracks.len() <= usize::MAX,
        within_pass(s, events),
    ensures
        ({
            let after = after_events(s, events);
            let places = consumed_places(s, events);
            &&& player_wf(after)
            &&& after.tracks.len() <= usize::MAX
            &&& after.tracks.take(progress(s) + 1) == s.tracks.take(progress(s) + 1)
            &&& places.len() > 0 && places[0] == progress(s) && places.last() == progress(after)
            &&& forall|i: int, j: int| 0 <= i < j < places.len() ==> places[i] < places[j]
        }),
    decreases events.len(),
{
    if events.len() > 0 {
        let earlier = events.drop_last();
        let before = after_events(s, earlier);
        let (event, seed) = events.last();
        pass_consumes_an_entry_at_most_once(s, earlier);
        events_keep_consumed_tracks(before, event, seed);
        let after = after_events(s, events);
        let played = progress(s) + 1;
        let places = consumed_places(s, earlier);
        assert(places.last() >= places[0]);
        assert(after.tracks.take(played) =~= after.tracks.take(progress(before) + 1).take(played));
        assert(before.tracks.take(played) =~= before.tracks.take(progress(before) + 1).take(
            played,
        ));
    }
}

proof fn lemma_longer_prefix(before: Seq<u64>, after: Seq<u64>, from: int, p: int, q: int)
    requires
        0 <= from <= p < before.len(),
        p <= q < after.len(),
        q <= p + 1,
        after.take(p + 1) == before.take(p + 1),
    ensures
        after.subrange(from, q + 1) == if q == p {
            before.subrange(from, p + 1)
        } else {
            before.subrange(from, p + 1).push(after[q])
        },
{
    assert forall|i: int| 0 <= i <= p implies after[i] == before[i] by {
        assert(after.take(p + 1)[i] == after[i]);
        assert(before.take(p + 1)[i] == before[i]);
    }
    assert(after.subrange(from, p + 1) =~= before.subrange(from, p + 1));
}

/// Where no other track is chosen in the queue, a pass consumes every entry
/// exactly once and in the order of the list: what was consumed is the list from
/// where the player began to where it stands.
pub proof fn pass_consumes_every_entry_once(s: PlayerState, events: Seq<(PlayerEvent, u64)>)
    requires
        player_wf(s),
        s.tracks.len() <= usize::MAX,
        within_pass(s, events),
        without_jumps(s, events),
    ensures
        ({
            let after = after_events(s, events);
            &&& progress(s) <= progress(after) < after.tracks.len()
            &&& consumed_tracks(s, events) == after.tracks.subrange(
                progress(s),
                progress(after) + 1,
            )
        }),
    decreases events.len(),
{
    if events.len() > 0 {
        let earlier = events.drop_last();
        let before = after_events(s, earlier);
        let (event, seed) = events.last();
        pass_consumes_every_entry_once(s, earlier);
        pass_consumes_an_entry_at_most_once(s, earlier);
        events_keep_consumed_tracks(before, event, seed);
        let after = event_step(before, event, seed);
        lemma_longer_prefix(
            before.tracks,
            after.tracks,
            progress(s),
            progress(before),
            progress(after),
        );
    } else {
        assert(consumed_tracks(s, events) =~= s.tracks.subrange(progress(s), progress(s) + 1));
    }
}

/// A pass ends, or another one starts, only when every entry of the list was
/// consumed.
pub proof fn pass_ends_when_every_entry_was_consumed(
    s: PlayerState,
    events: Seq<(PlayerEvent, u64)>,
    natural_end: bool,
    seed: u64,
)
    requires
        player_wf(s),
        s.tracks.len() <= usize::MAX,
        progress(s) == 0,
        within_pass(s, events),
        without_jumps(s, events),
        ({
            let last = after_events(s, events);
            pass_is_over(last, natural_end) || advanced(last, natural_end, seed).1
                == PlayerAction::Exit(PlayerExit::Back)
        }),
    ensures
        consumed_tracks(s, events) == after_events(s, events).tracks,
{
    let last = after_events(s, events);
    pass_consumes_an_entry_at_most_once(s, events);
    pass_consumes_every_entry_once(s, events);
    assert(last.tracks.subrange(0, last.tracks.len() as int) =~= last.tracks);
}

// ---------------------------------------------------------------------------
// What keys and track ends do
// ---------------------------------------------------------------------------

/// When a track ends, or Next is pressed, the track behind it plays from its
/// beginning. A queued track is used up, and the list stays as it is.
pub proof fn playback_goes_one_track_on(s: PlayerState, natural_end: bool, seed: u64)
    requires
        player_wf(s),
        s.resume is None,
        s.index + 1 < s.tracks.len(),
        !(natural_end && s.loop_mode == LoopMode::One),
    ensures
        ({
            let (after, action) = advanced(s, natural_end, seed);
            &&& after.index == s.index + 1
            &&& after.tracks == s.tracks
            &&& after.original == s.original
            &&& after.resume is None
            &&& after.play_next == if s.play_next > 0 {
                s.play_next - 1
            } else {
                0
            }
            &&& after.shuffle == s.shuffle
            &&& after.loop_mode == s.loop_mode
            &&& after.rate == s.rate
            &&& after.sponsor == s.sponsor
            &&& !after.paused
            &&& after.last_skipped is None
            &&& s.waiting is None ==> action == PlayerAction::Start && after.waiting is None
        }),
{
}

/// The player after so many tracks have ended by themselves.
pub open spec fn after_track_ends(s: PlayerState, ends: nat, seeds: spec_fn(nat) -> u64) -> PlayerState
    decreases ends,
{
    if ends == 0 {
        s
    } else {
        advanced(after_track_ends(s, (ends - 1) as nat, seeds), true, seeds(ends)).0
    }
}

/// A list plays on by itself, track after track.
pub proof fn lists_play_track_after_track(s: PlayerState, ends: nat, seeds: spec_fn(nat) -> u64)
    requires
        player_wf(s),
        s.resume is None,
        s.loop_mode != LoopMode::One,
        s.index + ends < s.tracks.len(),
    ensures
        ({
            let after = after_track_ends(s, ends, seeds);
            &&& player_wf(after)
            &&& after.index == s.index + ends
            &&& after.tracks == s.tracks
            &&& after.resume is None
            &&& after.loop_mode == s.loop_mode
        }),
    decreases ends,
{
    if ends > 0 {
        lists_play_track_after_track(s, (ends - 1) as nat, seeds);
        let before = after_track_ends(s, (ends - 1) as nat, seeds);
        playback_goes_one_track_on(before, true, seeds(ends));
    }
}

/// Behind the last track, loop `All` starts again with the first of the same
/// tracks, and else the player is left. Loop `One` repeats a track that ends, and
/// uses up no queued one.
pub proof fn passes_end_by_loop_mode(s: PlayerState, natural_end: bool, seed: u64)
    requires
        player_wf(s),
        s.resume is None,
    ensures
        ({
            let (after, action) = advanced(s, natural_end, seed);
            let last = s.index == s.tracks.len() - 1;
            let repeats = natural_end && s.loop_mode == LoopMode::One;
            &&& repeats ==> after.index == s.index && after.tracks == s.tracks && after.play_next
                == s.play_next
            &&& last && !repeats && s.loop_mode != LoopMode::All ==> action == PlayerAction::Exit(
                PlayerExit::Back,
            ) && after == (PlayerState { resume: None, ..s })
            &&& last && s.loop_mode == LoopMode::All ==> after.index == 0
                && after.tracks.to_multiset() == s.tracks.to_multiset() && after.tracks.len()
                == s.tracks.len()
            &&& last && s.loop_mode == LoopMode::All && !s.shuffle && s.tracks.len() > 1
                && s.tracks.to_multiset() == s.original.to_multiset() ==> after.tracks
                == s.original
            &&& !(action is Exit) && s.waiting is None ==> action == PlayerAction::Start
        }),
{
    lemma_pass_order(s.tracks, s.original, s.shuffle, seed);
    if s.tracks.to_multiset() == s.original.to_multiset() {
        crate::queue::restoring_undoes_a_shuffle(s.tracks, s.original);
    }
}

/// Previous plays the track before the current one, and before the first the
/// last. What is to come back to stays what it was.
pub proof fn previous_plays_the_track_before(s: PlayerState)
    requires
        player_wf(s),
        s.tracks.len() <= usize::MAX,
    ensures
        ({
            let (after, action) = went_back(s);
            &&& s.index > 0 ==> after.index == s.index - 1
            &&& s.index == 0 ==> after.index == s.tracks.len() - 1
            &&& after.tracks == s.tracks
            &&& after.play_next == s.play_next
            &&& after.resume == match s.resume {
                Some(r) => Some(r),
                None => Some(s.index as usize),
            }
            &&& !after.paused
            &&& s.waiting is None ==> action == PlayerAction::Start
        }),
{
}

/// What each key does to the list that plays: nothing, but for Next, Previous and
/// shuffle. Keys that move on do what the media buttons do.
pub proof fn keys_touch_only_what_they_name(
    s: PlayerState,
    press: KeyPress,
    elapsed: Span,
    duration: Option<Span>,
    seed: u64,
)
    requires
        player_wf(s),
        press.key != Key::Char('n'),
        press.key != Key::Char('v'),
    ensures
        ({
            let after = player_step(s, press, elapsed, duration, seed).0;
            &&& after.index == s.index
            &&& after.resume == s.resume
            &&& after.play_next == s.play_next
            &&& after.original == s.original
            &&& after.source == s.source
            &&& after.waiting == s.waiting
            &&& press.key != Key::Char('r') ==> after.tracks == s.tracks && after.shuffle
                == s.shuffle
            &&& press.key != Key::Char('l') ==> after.loop_mode == s.loop_mode
            &&& press.key != Key::Char('p') && press.key != Key::Char(' ') ==> after.paused
                == s.paused
            &&& press.key != Key::Char(',') && press.key != Key::Char('.') ==> after.rate == s.rate
            &&& press.key != Key::Char('s') ==> after.sponsor == s.sponsor
            &&& s.source != PlayerSource::YouTube ==> after.rate == s.rate && after.sponsor
                == s.sponsor && after.last_skipped == s.last_skipped
        }),
{
}

/// Play and pause, the loop mode, shuffle and SponsorBlock are turned over by
/// their keys.
pub proof fn switches_turn_over(s: PlayerState, elapsed: Span, duration: Option<Span>, seed: u64)
    requires
        player_wf(s),
    ensures
        ({
            let p = player_step(
                s,
                KeyPress { key: Key::Char('p'), control: false },
                elapsed,
                duration,
                seed,
            );
            &&& p.0.paused == !s.paused
            &&& p.1 == PlayerAction::SetPaused(!s.paused)
        }),
        ({
            let p = player_step(
                s,
                KeyPress { key: Key::Char(' '), control: false },
                elapsed,
                duration,
                seed,
            );
            &&& p.0.paused == !s.paused
            &&& p.1 == PlayerAction::SetPaused(!s.paused)
        }),
        ({
            let r = player_step(
                s,
                KeyPress { key: Key::Char('r'), control: false },
                elapsed,
                duration,
                seed,
            );
            r.0.shuffle == !s.shuffle && r.1 == PlayerAction::Stay
        }),
        ({
            let l = player_step(
                s,
                KeyPress { key: Key::Char('l'), control: false },
                elapsed,
                duration,
                seed,
            );
            l.0.loop_mode == match s.loop_mode {
                LoopMode::Off => LoopMode::All,
                LoopMode::All => LoopMode::One,
                LoopMode::One => LoopMode::Off,
            }
        }),
        ({
            let x = player_step(
                s,
                KeyPress { key: Key::Char('s'), control: false },
                elapsed,
                duration,
                seed,
            );
            x.0.sponsor == if s.source == PlayerSource::YouTube {
                !s.sponsor
            } else {
                s.sponsor
            }
        }),
{
}

/// Up, `+` and `=` raise the volume by ten hundredths, Down and `-` lower it by as
/// much; Right and Left by one, but on YouTube, where they seek.
pub proof fn volume_keys_raise_and_lower(
    s: PlayerState,
    press: KeyPress,
    elapsed: Span,
    duration: Option<Span>,
    seed: u64,
)
    requires
        player_wf(s),
        elapsed.valid(),
        duration matches Some(total) ==> total.valid(),
    ensures
        ({
            let (after, action) = player_step(s, press, elapsed, duration, seed);
            &&& press.key == Key::Up || press.key == Key::Char('+') || press.key == Key::Char('=')
                ==> action == PlayerAction::Volume(10) && after == s
            &&& press.key == Key::Down || press.key == Key::Char('-') ==> action
                == PlayerAction::Volume((-10) as i32) && after == s
            &&& press.key == Key::Right && s.source != PlayerSource::YouTube ==> action
                == PlayerAction::Volume(1) && after == s
            &&& press.key == Key::Left && s.source != PlayerSource::YouTube ==> action
                == PlayerAction::Volume((-1) as i32) && after == s
            &&& action is Volume ==> press.key == Key::Up || press.key == Key::Down || press.key
                == Key::Left || press.key == Key::Right || press.key == Key::Char('+') || press.key
                == Key::Char('=') || press.key == Key::Char('-')
        }),
{
}

/// On YouTube, Right and Left seek ten seconds, and `.` and `,` change the speed by
/// a quarter and go on where the track is.
pub proof fn youtube_keys_seek_and_change_the_speed(
    s: PlayerState,
    elapsed: Span,
    duration: Option<Span>,
    seed: u64,
)
    requires
        player_wf(s),
        s.source == PlayerSource::YouTube,
        s.waiting is None,
        elapsed.valid(),
        duration matches Some(total) ==> total.valid(),
    ensures
        ({
            let now = elapsed.secs * 1_000_000_000 + elapsed.nanos;
            let right = player_step(
                s,
                KeyPress { key: Key::Right, control: false },
                elapsed,
                duration,
                seed,
            );
            let left = player_step(
                s,
                KeyPress { key: Key::Left, control: false },
                elapsed,
                duration,
                seed,
            );
            &&& now + 10_000_000_000 <= match duration {
                Some(total) => total.secs * 1_000_000_000 + total.nanos,
                None => u64::MAX * 1_000_000_000 + 999_999_999,
            } ==> (right.1 matches PlayerAction::MoveTo(to) && to.secs * 1_000_000_000 + to.nanos
                == now + 10_000_000_000)
            &&& now >= 10_000_000_000 ==> (left.1 matches PlayerAction::MoveTo(to) && to.secs
                * 1_000_000_000 + to.nanos == now - 10_000_000_000)
            &&& now < 10_000_000_000 ==> left.1 == PlayerAction::MoveTo(Span { secs: 0, nanos: 0 })
        }),
        ({
            let faster = player_step(
                s,
                KeyPress { key: Key::Char('.'), control: false },
                elapsed,
                duration,
                seed,
            );
            let slower = player_step(
                s,
                KeyPress { key: Key::Char(','), control: false },
                elapsed,
                duration,
                seed,
            );
            &&& s.rate < 8 ==> faster.0.rate == s.rate + 1 && faster.1 == PlayerAction::MoveTo(
                elapsed,
            )
            &&& s.rate > 2 ==> slower.0.rate == s.rate - 1 && slower.1 == PlayerAction::MoveTo(
                elapsed,
            )
            &&& s.rate == 8 ==> faster.0.rate == 8 && faster.1 == PlayerAction::Stay
            &&& s.rate == 2 ==> slower.0.rate == 2 && slower.1 == PlayerAction::Stay
        }),
{
    let now = elapsed.total();
    crate::youtube::seeks_go_ten_seconds(elapsed, duration);
    let ahead = seek_moment(now, duration, true);
    let back = seek_moment(now, duration, false);
    lemma_span_parts(ahead);
    lemma_span_parts(back);
}

proof fn lemma_span_parts(total: int)
    requires
        0 <= total <= u64::MAX * 1_000_000_000 + 999_999_999,
    ensures
        span_of(total).secs * 1_000_000_000 + span_of(total).nanos == total,
        total == 0 ==> span_of(total) == (Span { secs: 0, nanos: 0 }),
{
    vstd::arithmetic::div_mod::lemma_fundamental_div_mod(total, 1_000_000_000);
}

/// `q` and Ctrl+C quit; `b` and Esc go back; no other key leaves a player, but Next
/// behind the last track.
pub proof fn exits_have_their_keys(
    s: PlayerState,
    press: KeyPress,
    elapsed: Span,
    duration: Option<Span>,
    seed: u64,
)
    requires
        player_wf(s),
    ensures
        ({
            let (after, action) = player_step(s, press, elapsed, duration, seed);
            let quit = press.key == Key::Char('q') || press.key == Key::Char('c') && press.control;
            let back = press.key == Key::Char('b') || press.key == Key::Esc;
            &&& action == PlayerAction::Exit(PlayerExit::Quit) <==> quit
            &&& back ==> action == PlayerAction::Exit(PlayerExit::Back) && after == s
            &&& quit ==> after == s
            &&& action is Exit ==> quit || back || press.key == Key::Char('n') && s.index
                == s.tracks.len() - 1 && s.loop_mode != LoopMode::All && s.resume is None
            &&& action == PlayerAction::OpenQueue <==> press.key == Key::Char('u')
            &&& action == PlayerAction::AddTracks <==> press.key == Key::Char('a') && s.source
                == PlayerSource::YouTube
        }),
{
}

/// Next and Previous do the same as their media buttons, and Play and Pause set
/// what they say.
pub proof fn media_buttons_do_what_keys_do(
    s: PlayerState,
    elapsed: Span,
    duration: Option<Span>,
    seed: u64,
)
    requires
        player_wf(s),
    ensures
        media_step(s, MediaCommand::Next, seed) == player_step(
            s,
            KeyPress { key: Key::Char('n'), control: false },
            elapsed,
            duration,
            seed,
        ),
        media_step(s, MediaCommand::Previous, seed) == player_step(
            s,
            KeyPress { key: Key::Char('v'), control: false },
            elapsed,
            duration,
            seed,
        ),
        media_step(s, MediaCommand::Next, seed) == advanced(s, false, seed),
        media_step(s, MediaCommand::Previous, seed) == went_back(s),
        media_step(s, MediaCommand::Play, seed) == (
            PlayerState { paused: false, ..s },
            PlayerAction::SetPaused(false),
        ),
        media_step(s, MediaCommand::Pause, seed) == (
            PlayerState { paused: true, ..s },
            PlayerAction::SetPaused(true),
        ),
{
}

/// Added tracks come right behind those that are queued already, in their order;
/// the rest of the list follows them.
pub proof fn additions_follow_the_queued_tracks(s: PlayerState, additions: Seq<u64>, new: bool)
    requires
        player_wf(s),
        additions.len() > 0,
    ensures
        ({
            let after = with_queued(s, additions, new);
            let played = match s.resume {
                Some(r) => r as int,
                None => s.index,
            };
            let at = if played + 1 + s.play_next <= s.tracks.len() {
                played + 1 + s.play_next
            } else {
                s.tracks.len() as int
            };
            &&& after.tracks == s.tracks.take(at) + additions + s.tracks.skip(at)
            &&& after.play_next == s.play_next + additions.len()
            &&& after.original == if new {
                s.original + additions
            } else {
                s.original
            }
            &&& after.shuffle == s.shuffle
            &&& with_tracks(s, additions).tracks == after.tracks
            &&& !with_tracks(s, additions).shuffle
            &&& with_tracks(s, additions).original == s.original + additions
        }),
{
}

/// A track that is chosen in the queue plays, and nothing is queued before it any
/// more; closing the queue without a choice changes nothing.
pub proof fn chosen_tracks_play(s: PlayerState, row: int, seed: u64)
    requires
        player_wf(s),
        s.tracks.len() <= usize::MAX,
        0 <= row < s.tracks.len() - progress(s),
    ensures
        ({
            let press = KeyPress { key: Key::Enter, control: false };
            let keyed = queue_key_step(s, row, press);
            let at = if row == 0 {
                s.index
            } else {
                progress(s) + row
            };
            let edit = QueueEdit {
                index: at as usize,
                restart: s.tracks[at] != s.tracks[s.index],
                finished: false,
            };
            let (after, action) = queue_step(keyed, edit, seed);
            &&& after.index == at
            &&& after.tracks == s.tracks
            &&& at != s.index ==> after.play_next == 0 && after.resume is None
            &&& at == s.index ==> after == s && action == PlayerAction::Stay
            &&& s.tracks[at] != s.tracks[s.index] && s.waiting is None ==> action
                == PlayerAction::Start
        }),
        ({
            let press = KeyPress { key: Key::Esc, control: false };
            let edit = QueueEdit { index: s.index as usize, restart: false, finished: false };
            queue_step(queue_key_step(s, row, press), edit, seed) == (s, PlayerAction::Stay)
        }),
{
}

/// Delete takes the selected track out of the queue, unless it plays: a copy of
/// it in the rest of the list stays, and else it goes to the end. On any other row
/// it changes nothing.
pub proof fn unqueued_tracks_go_back(s: PlayerState, row: int)
    requires
        player_wf(s),
        0 <= row < s.tracks.len() - progress(s),
    ensures
        ({
            let after = queue_key_step(s, row, KeyPress { key: Key::Delete, control: false });
            let at = progress(s) + row;
            let queued = 1 <= row <= s.play_next && at != s.index;
            let rest = s.tracks.remove(at);
            let tail = rest.skip(
                if progress(s) + s.play_next <= rest.len() {
                    progress(s) + s.play_next
                } else {
                    rest.len() as int
                },
            );
            &&& !queued ==> after == s
            &&& queued ==> after.play_next == s.play_next - 1 && after.tracks == if tail.contains(
                s.tracks[at],
            ) {
                rest
            } else {
                rest.push(s.tracks[at])
            }
        }),
{
    let at = progress(s) + row;
    if 1 <= row <= s.play_next && at != s.index {
        let rest = s.tracks.remove(at);
        let tail = rest.skip(tail_start(progress(s), s.play_next - 1, rest.len() as int));
        let track = s.tracks[at];
        if crate::queue::holds(tail, track) {
            let i = choose|i: int|
                0 <= i < tail.len() && (#[trigger] tail[i]).eq_spec(&track);
            assert(tail[i] == track);
        }
        if tail.contains(track) {
            let i = choose|i: int| 0 <= i < tail.len() && tail[i] == track;
            assert(tail[i].eq_spec(&track));
        }
    }
}

/// When the output is lost, only a YouTube player waits, and it waits where it was
/// first lost.
pub proof fn only_youtube_waits_for_an_output(s: PlayerState, elapsed: Span)
    ensures
        s.source != PlayerSource::YouTube ==> lost_step(s, elapsed) == (s, PlayerAction::Fail),
        s.source == PlayerSource::YouTube ==> {
            let (after, action) = lost_step(s, elapsed);
            &&& action == PlayerAction::Wait
            &&& after.waiting == match s.waiting {
                Some(p) => Some(p),
                None => Some(elapsed),
            }
            &&& (PlayerState { waiting: s.waiting, ..after }) == s
        },
        s.waiting is None ==> ready_step(s) == (s, PlayerAction::Stay),
{
}

/// A segment is skipped to its end, once, and only while SponsorBlock is on.
pub proof fn segments_are_skipped_to_their_end(
    s: PlayerState,
    elapsed: Span,
    segments: Seq<SponsorSegment>,
)
    ensures
        ({
            let (after, action) = skip_step(s, elapsed, segments);
            &&& (PlayerState { last_skipped: s.last_skipped, ..after }) == s
            &&& !s.sponsor || s.waiting is Some ==> action == PlayerAction::Stay && after == s
            &&& action != PlayerAction::Stay ==> {
                &&& after.last_skipped is Some
                &&& action == PlayerAction::MoveTo(after.last_skipped->0.end)
                &&& segments.contains(after.last_skipped->0)
                &&& after.last_skipped != s.last_skipped
                &&& after.last_skipped->0.start.total() <= elapsed.total()
                    < after.last_skipped->0.end.total()
            }
            &&& action == PlayerAction::Stay && s.sponsor && s.waiting is None ==> forall|i: int|
                0 <= i < segments.len() ==> !((#[trigger] segments[i]).start.total()
                    <= elapsed.total() < segments[i].end.total()) || s.last_skipped == Some(
                    segments[i],
                )
        }),
{
    crate::sponsor::skipping_goes_forward_once(segments, elapsed, s.last_skipped);
}

/// Turning shuffle on shuffles what is to come behind the queued tracks, and
/// turning it off puts that in the order of the original list. A new pass over
/// the list is shuffled where shuffle is on.
pub proof fn shuffle_draws_from_what_is_to_come(s: PlayerState, natural_end: bool, seed: u64)
    requires
        player_wf(s),
    ensures
        ({
            let after = char_step(s, 'r', Span { secs: 0, nanos: 0 }, seed).0;
            let played = match s.resume {
                Some(at) => at as int,
                None => s.index,
            };
            let from = if played + 1 + s.play_next < s.tracks.len() {
                played + 1 + s.play_next
            } else {
                s.tracks.len() as int
            };
            let rest = if s.index < from {
                s.tracks.skip(from)
            } else {
                s.tracks.remove(s.index).skip(from)
            };
            let turned = if after.index < from {
                after.tracks.skip(from)
            } else {
                after.tracks.remove(after.index).skip(from)
            };
            &&& !s.shuffle ==> turned == shuffled_from(rest, seed)
            &&& s.shuffle ==> turned == restored(rest, s.original)
        }),
        ({
            let after = advanced(s, natural_end, seed).0;
            s.resume is None && s.index == s.tracks.len() - 1 && s.index > 0 && s.loop_mode
                == LoopMode::All && s.shuffle ==> after.tracks == shuffled_from(s.tracks, seed)
                && after.index == 0
        }),
{
    shuffle_moves_only_the_rest(s, seed);
}

/// A track that is turned to plays from its start: at once, or, while an output is
/// waited for, once there is one.
pub proof fn tracks_play_from_their_start(s: PlayerState, natural_end: bool, seed: u64)
    requires
        player_wf(s),
    ensures
        ({
            let (after, action) = went_back(s);
            &&& s.waiting is None ==> after.waiting is None && action == PlayerAction::Start
            &&& s.waiting is Some ==> after.waiting == Some(Span { secs: 0, nanos: 0 }) && action
                == PlayerAction::Stay
            &&& !after.paused && after.last_skipped is None
        }),
        ({
            let (after, action) = advanced(s, natural_end, seed);
            action is Exit || {
                &&& s.waiting is None ==> after.waiting is None && action == PlayerAction::Start
                &&& s.waiting is Some ==> after.waiting == Some(Span { secs: 0, nanos: 0 })
                    && action == PlayerAction::Stay
                &&& !after.paused && after.last_skipped is None
            }
        }),
{
}

} // verus!
