//! The playback queue: which track comes next, what is played before the rest
//! of the track list, and in which order the rest follows.
use crate::language::{tr, Translation};
use vstd::prelude::*;
use vstd::std_specs::cmp::PartialEqSpec;

verus! {

broadcast use vstd::seq_lib::group_to_multiset_ensures;

// ---------------------------------------------------------------------------
// Loop mode and the next track
// ---------------------------------------------------------------------------

#[derive(Clone, Copy, Debug, PartialEq, Eq, Structural)]
pub enum LoopMode {
    Off,
    All,
    One,
}

/// What a press of the loop key makes of the loop mode.
pub open spec fn cycled(mode: LoopMode) -> LoopMode {
    match mode {
        LoopMode::Off => LoopMode::All,
        LoopMode::All => LoopMode::One,
        LoopMode::One => LoopMode::Off,
    }
}

impl LoopMode {
    pub fn cycle(self) -> (r: LoopMode)
        ensures
            r == cycled(self),
    {
        match self {
            LoopMode::Off => LoopMode::All,
            LoopMode::All => LoopMode::One,
            LoopMode::One => LoopMode::Off,
        }
    }

    pub fn label(self, translation: &Translation) -> (r: String)
        ensures
            r@ == loop_label(*translation, self),
    {
        match self {
            LoopMode::Off => tr(translation, "msg.off"),
            LoopMode::All => tr(translation, "msg.all"),
            LoopMode::One => tr(translation, "msg.one"),
        }
    }
}

/// What a loop mode is called.
pub open spec fn loop_label(t: Translation, mode: LoopMode) -> Seq<char> {
    match mode {
        LoopMode::Off => t.text("msg.off"@),
        LoopMode::All => t.text("msg.all"@),
        LoopMode::One => t.text("msg.one"@),
    }
}

/// Three presses of the loop key come back to the mode they started from, and
/// fewer do not.
pub proof fn loop_mode_cycle_has_period_three(mode: LoopMode)
    ensures
        cycled(cycled(cycled(mode))) == mode,
        cycled(mode) != mode,
        cycled(cycled(mode)) != mode,
{
}

/// The track behind `current` in a pass over `count` tracks. A track that ends
/// by itself in mode `One` repeats; only mode `All` starts another pass.
pub open spec fn next_track(
    current: int,
    count: int,
    mode: LoopMode,
    natural_end: bool,
) -> Option<int> {
    if natural_end && mode == LoopMode::One {
        Some(current)
    } else if current + 1 < count {
        Some(current + 1)
    } else if mode == LoopMode::All {
        Some(0)
    } else {
        None
    }
}

/// Where playback goes on after a track: the index, whether a new pass starts
/// there, and whether the step uses up a queued track. A track that was left
/// for a replay comes back first.
pub open spec fn forward_step(
    current: int,
    count: int,
    mode: LoopMode,
    natural_end: bool,
    resume: Option<usize>,
) -> Option<(int, bool, bool)> {
    match resume {
        Some(index) => Some((index as int, false, false)),
        None => match next_track(current, count, mode, natural_end) {
            Some(next) => Some((next, next == 0 && next != current, true)),
            None => None,
        },
    }
}

/// The track before `current`, the last one before the first.
pub open spec fn previous_track(current: int, count: int) -> int {
    if current == 0 {
        count - 1
    } else {
        current - 1
    }
}

/// What a replay leaves to come back to: the track from which the first of
/// several replays started.
pub open spec fn resume_point(current: usize, resume: Option<usize>) -> Option<usize> {
    match resume {
        Some(index) => Some(index),
        None => Some(current),
    }
}

pub fn next_track_index(
    current: usize,
    track_count: usize,
    loop_mode: LoopMode,
    natural_end: bool,
) -> (r: Option<usize>)
    ensures
        match next_track(current as int, track_count as int, loop_mode, natural_end) {
            Some(next) => r == Some(next as usize) && 0 <= next <= usize::MAX,
            None => r is None,
        },
{
    if natural_end && loop_mode == LoopMode::One {
        return Some(current);
    }
    if track_count > 0 && current < track_count - 1 {
        return Some(current + 1);
    }
    if loop_mode == LoopMode::All {
        Some(0)
    } else {
        None
    }
}

pub fn previous_track_index(
    current: usize,
    track_count: usize,
    resume_after_replay: &mut Option<usize>,
) -> (r: usize)
    requires
        track_count > 0 || current > 0,
    ensures
        r == previous_track(current as int, track_count as int),
        *final(resume_after_replay) == resume_point(current, *old(resume_after_replay)),
{
    if resume_after_replay.is_none() {
        *resume_after_replay = Some(current);
    }
    if current == 0 {
        track_count - 1
    } else {
        current - 1
    }
}

pub fn forward_track_index(
    current: usize,
    track_count: usize,
    loop_mode: LoopMode,
    natural_end: bool,
    resume_after_replay: &mut Option<usize>,
) -> (r: Option<(usize, bool, bool)>)
    ensures
        match forward_step(
            current as int,
            track_count as int,
            loop_mode,
            natural_end,
            *old(resume_after_replay),
        ) {
            Some(step) => r == Some((step.0 as usize, step.1, step.2)) && 0 <= step.0
                <= usize::MAX,
            None => r is None,
        },
        *final(resume_after_replay) is None,
{
    let resume = *resume_after_replay;
    *resume_after_replay = None;
    match resume {
        Some(index) => Some((index, false, false)),
        None => match next_track_index(current, track_count, loop_mode, natural_end) {
            Some(next) => Some((next, next == 0 && next != current, true)),
            None => None,
        },
    }
}

/// The track that is reached from `current` by `steps` replays.
pub open spec fn replayed(current: int, count: int, steps: nat) -> int
    decreases steps,
{
    if steps == 0 {
        current
    } else {
        previous_track(replayed(current, count, (steps - 1) as nat), count)
    }
}

/// What is left to come back to after `steps` replays from `current`.
pub open spec fn replay_resume(current: usize, count: int, steps: nat) -> Option<usize>
    decreases steps,
{
    if steps == 0 {
        None
    } else {
        resume_point(
            replayed(current as int, count, (steps - 1) as nat) as usize,
            replay_resume(current, count, (steps - 1) as nat),
        )
    }
}

/// However many tracks are replayed one after the other, the next step forward
/// comes back to the track from which the replays started, without starting a
/// pass and without using up a queued track.
pub proof fn replays_resume_where_they_started(
    current: usize,
    count: usize,
    steps: nat,
    mode: LoopMode,
    natural_end: bool,
)
    requires
        current < count,
        steps > 0,
    ensures
        forward_step(
            replayed(current as int, count as int, steps),
            count as int,
            mode,
            natural_end,
            replay_resume(current, count as int, steps),
        ) == Some((current as int, false, false)),
    decreases steps,
{
    if steps > 1 {
        replays_resume_where_they_started(current, count, (steps - 1) as nat, mode, natural_end);
    } else {
        assert(replay_resume(current, count as int, 0) is None);
        assert(replayed(current as int, count as int, 0) == current);
    }
}

/// Replays stay inside the track list.
pub proof fn replays_stay_in_the_list(current: int, count: int, steps: nat)
    requires
        0 <= current < count,
    ensures
        0 <= replayed(current, count, steps) < count,
    decreases steps,
{
    if steps > 0 {
        replays_stay_in_the_list(current, count, (steps - 1) as nat);
    }
}

/// Steps forward stay inside the track list, and a pass over it ends behind
/// the last track unless the mode is `All`, or it is `One` and the track ended
/// by itself.
pub proof fn forward_steps_stay_in_the_list(
    current: int,
    count: int,
    mode: LoopMode,
    natural_end: bool,
)
    requires
        0 <= current < count,
    ensures
        match next_track(current, count, mode, natural_end) {
            Some(next) => 0 <= next < count,
            None => current == count - 1 && mode != LoopMode::All,
        },
        (next_track(current, count, mode, natural_end) is None) == (current == count - 1 && mode
            != LoopMode::All && !(mode == LoopMode::One && natural_end)),
{
}

// ---------------------------------------------------------------------------
// The window of a list that is shown
// ---------------------------------------------------------------------------

/// How far a page over `length` rows is scrolled so that row `at` stands near
/// its middle.
pub open spec fn window_start(at: int, length: int, page_size: int) -> int {
    let wanted = if at < page_size / 2 {
        0
    } else {
        at - page_size / 2
    };
    let last = if length < page_size {
        0
    } else {
        length - page_size
    };
    if wanted < last {
        wanted
    } else {
        last
    }
}

pub fn window_offset(at: usize, length: usize, page_size: usize) -> (r: usize)
    ensures
        r == window_start(at as int, length as int, page_size as int),
{
    let half: usize = page_size / 2;
    let wanted: usize = if at < half {
        0
    } else {
        at - half
    };
    let last: usize = if length < page_size {
        0
    } else {
        length - page_size
    };
    if wanted < last {
        wanted
    } else {
        last
    }
}

/// The scroll position of one segment of the queue.
pub open spec fn segment_window(selected: int, start: int, end: int, page_size: int) -> int {
    if selected < start || selected >= end {
        0
    } else {
        window_start(selected - start, end - start, page_size)
    }
}

pub fn queue_window_start(
    selected: usize,
    segment_start: usize,
    segment_end: usize,
    page_size: usize,
) -> (r: usize)
    ensures
        r == segment_window(
            selected as int,
            segment_start as int,
            segment_end as int,
            page_size as int,
        ),
{
    if selected < segment_start || selected >= segment_end {
        return 0;
    }
    window_offset(selected - segment_start, segment_end - segment_start, page_size)
}

/// A selected track of a segment is among the tracks of the segment that are
/// shown, and the page is as full as the segment allows.
pub proof fn selected_track_is_shown(selected: int, start: int, end: int, page_size: int)
    requires
        start <= selected < end,
        page_size > 0,
    ensures
        ({
            let offset = segment_window(selected, start, end, page_size);
            &&& 0 <= offset
            &&& start + offset <= selected < start + offset + page_size
            &&& offset == 0 || offset + page_size <= end - start
        }),
{
}

// ---------------------------------------------------------------------------
// Tracks that are queued before the rest of the track list
// ---------------------------------------------------------------------------

/// Where the rest of the track list starts: behind the current track and the
/// `play_next` tracks that were queued after it.
pub open spec fn tail_start(current: int, play_next: int, len: int) -> int {
    if current + 1 + play_next < len {
        current + 1 + play_next
    } else {
        len
    }
}

/// The queue with tracks put behind those that are queued already.
pub open spec fn with_next<T>(
    queue: Seq<T>,
    current: int,
    play_next: int,
    additions: Seq<T>,
) -> Seq<T> {
    let at = tail_start(current, play_next, queue.len() as int);
    queue.take(at) + additions + queue.skip(at)
}

/// Whether an item of a sequence equals `item`.
pub open spec fn holds<T: PartialEq>(items: Seq<T>, item: T) -> bool {
    exists|i: int| 0 <= i < items.len() && (#[trigger] items[i]).eq_spec(&item)
}

/// The queue without one of the queued tracks. A track that the rest of the
/// track list does not hold goes back to its end.
pub open spec fn without_next<T: PartialEq>(
    queue: Seq<T>,
    current: int,
    play_next: int,
    remove: int,
) -> Seq<T> {
    let rest = queue.remove(remove);
    let tail = rest.skip(tail_start(current, play_next - 1, rest.len() as int));
    if holds(tail, queue[remove]) {
        rest
    } else {
        rest.push(queue[remove])
    }
}

/// Where the rest of the track list starts, in machine integers.
pub fn tail_index(current: usize, play_next: usize, len: usize) -> (r: usize)
    ensures
        r == tail_start(current as int, play_next as int, len as int),
{
    if current >= len {
        return len;
    }
    if play_next >= len - current {
        return len;
    }
    if current + play_next < len {
        current + play_next + 1
    } else {
        len
    }
}

pub fn insert_queue_next<T>(
    queue: &mut Vec<T>,
    current: usize,
    play_next: &mut usize,
    additions: Vec<T>,
)
    requires
        *old(play_next) + additions@.len() <= usize::MAX,
        old(queue)@.len() + additions@.len() <= usize::MAX,
    ensures
        final(queue)@ == with_next(
            old(queue)@,
            current as int,
            *old(play_next) as int,
            additions@,
        ),
        *final(play_next) == *old(play_next) + additions@.len(),
{
    let at: usize = tail_index(current, *play_next, queue.len());
    *play_next = *play_next + additions.len();
    let mut more = additions;
    let mut tail = queue.split_off(at);
    queue.append(&mut more);
    queue.append(&mut tail);
}

/// Whether the items from a position on hold an item.
fn holds_from<T: PartialEq>(items: &Vec<T>, from: usize, item: &T) -> (r: bool)
    requires
        from <= items@.len(),
    ensures
        T::obeys_eq_spec() ==> r == holds(items@.skip(from as int), *item),
{
    let mut i: usize = from;
    while i < items.len()
        invariant
            from <= i <= items@.len(),
            T::obeys_eq_spec() ==> forall|j: int|
                0 <= j < i - from ==> !(#[trigger] items@.skip(from as int)[j]).eq_spec(item),
        decreases items@.len() - i,
    {
        if items[i] == *item {
            assert(items@.skip(from as int)[i - from] == items@[i as int]);
            return true;
        }
        i += 1;
    }
    false
}

pub fn unqueue_next_item<T: PartialEq>(
    queue: &mut Vec<T>,
    current: usize,
    play_next: &mut usize,
    remove: usize,
)
    requires
        remove < old(queue)@.len(),
        *old(play_next) > 0,
    ensures
        *final(play_next) == *old(play_next) - 1,
        ({
            let rest = old(queue)@.remove(remove as int);
            final(queue)@ == rest || final(queue)@ == rest.push(old(queue)@[remove as int])
        }),
        T::obeys_eq_spec() ==> final(queue)@ == without_next(
            old(queue)@,
            current as int,
            *old(play_next) as int,
            remove as int,
        ),
{
    let item = queue.remove(remove);
    *play_next = *play_next - 1;
    let start: usize = tail_index(current, *play_next, queue.len());
    if !holds_from(queue, start, &item) {
        queue.push(item);
    }
}

/// Queued tracks play right behind the current one, in the order in which they
/// were queued, and the rest of the track list follows unchanged.
pub proof fn queued_tracks_play_next<T>(
    queue: Seq<T>,
    current: int,
    play_next: int,
    additions: Seq<T>,
)
    requires
        0 <= current < queue.len(),
        0 <= play_next,
        current + 1 + play_next <= queue.len(),
    ensures
        ({
            let after = with_next(queue, current, play_next, additions);
            let at = current + 1 + play_next;
            &&& after.take(at) == queue.take(at)
            &&& after.subrange(at, at + additions.len()) == additions
            &&& after.skip(at + additions.len()) == queue.skip(at)
            &&& after.len() == queue.len() + additions.len()
        }),
{
    let after = with_next(queue, current, play_next, additions);
    let at = current + 1 + play_next;
    assert(after.take(at) =~= queue.take(at));
    assert(after.subrange(at, at + additions.len()) =~= additions);
    assert(after.skip(at + additions.len()) =~= queue.skip(at));
}

/// Two rounds of queueing are one round with the tracks of both.
pub proof fn queueing_twice_is_queueing_once<T>(
    queue: Seq<T>,
    current: int,
    play_next: int,
    first: Seq<T>,
    second: Seq<T>,
)
    requires
        0 <= current < queue.len(),
        0 <= play_next,
        current + 1 + play_next <= queue.len(),
    ensures
        with_next(
            with_next(queue, current, play_next, first),
            current,
            play_next + first.len(),
            second,
        ) == with_next(queue, current, play_next, first + second),
{
    let once = with_next(queue, current, play_next, first);
    let at = current + 1 + play_next;
    assert(once.take(at + first.len()) =~= queue.take(at) + first);
    assert(once.skip(at + first.len()) =~= queue.skip(at));
    assert(with_next(once, current, play_next + first.len(), second) =~= with_next(
        queue,
        current,
        play_next,
        first + second,
    ));
}

/// Taking a queued track back leaves what was played, the current track and
/// the other queued tracks as they are, and no track is lost: either the rest
/// of the track list holds an equal one, or it ends with the track.
pub proof fn unqueueing_loses_no_track<T: PartialEq>(
    queue: Seq<T>,
    current: int,
    play_next: int,
    remove: int,
)
    requires
        0 <= current < remove <= current + play_next < queue.len(),
    ensures
        ({
            let after = without_next(queue, current, play_next, remove);
            &&& after.take(current + 1) == queue.take(current + 1)
            &&& after.subrange(current + 1, current + play_next) == queue.subrange(
                current + 1,
                current + 1 + play_next,
            ).remove(remove - current - 1)
            &&& holds(after.skip(current + play_next), queue[remove]) || after
                == queue.remove(remove).push(queue[remove])
            &&& after == queue.remove(remove) || after.to_multiset() == queue.to_multiset()
        }),
{
    let after = without_next(queue, current, play_next, remove);
    let rest = queue.remove(remove);
    assert(after.take(current + 1) =~= queue.take(current + 1));
    assert(after.subrange(current + 1, current + play_next) =~= queue.subrange(
        current + 1,
        current + 1 + play_next,
    ).remove(remove - current - 1));
    if holds(rest.skip(current + play_next), queue[remove]) {
        assert(after == rest);
    } else {
        assert(after.to_multiset() =~= queue.to_multiset());
    }
}

// ---------------------------------------------------------------------------
// The order of the rest of the track list
// ---------------------------------------------------------------------------

/// The sequence with two of its items exchanged.
pub open spec fn swapped<T>(s: Seq<T>, a: int, b: int) -> Seq<T> {
    s.update(a, s[b]).update(b, s[a])
}

/// The generator behind the shuffle.
pub open spec fn next_state(state: u64) -> u64 {
    ((state * 6364136223846793005 + 1) % 0x1_0000_0000_0000_0000) as u64
}

/// The item with which item `index` is exchanged.
pub open spec fn partner(state: u64, index: int) -> int {
    (#[verifier::truncate] (state as usize)) as int % (index + 1)
}

/// The sequence after the exchanges from item `index` down to the second.
pub open spec fn shuffled<T>(s: Seq<T>, state: u64, index: int) -> Seq<T>
    decreases index,
{
    if index <= 0 {
        s
    } else {
        let next = next_state(state);
        shuffled(swapped(s, index, partner(next, index)), next, index - 1)
    }
}

/// The sequence shuffled from a seed.
pub open spec fn shuffled_from<T>(s: Seq<T>, seed: u64) -> Seq<T> {
    shuffled(s, seed, s.len() - 1)
}

proof fn lemma_swapped<T>(s: Seq<T>, a: int, b: int)
    requires
        0 <= a < s.len(),
        0 <= b < s.len(),
    ensures
        swapped(s, a, b).len() == s.len(),
        swapped(s, a, b).to_multiset() == s.to_multiset(),
{
    assert(swapped(s, a, b).to_multiset() =~= s.to_multiset());
}

proof fn lemma_shuffled<T>(s: Seq<T>, state: u64, index: int)
    requires
        index < s.len(),
    ensures
        shuffled(s, state, index).len() == s.len(),
        shuffled(s, state, index).to_multiset() == s.to_multiset(),
    decreases index,
{
    if index > 0 {
        let next = next_state(state);
        let b = partner(next, index);
        assert(0 <= b <= index) by (nonlinear_arith)
            requires
                b == (#[verifier::truncate] (next as usize)) as int % (index + 1),
                index > 0,
        ;
        lemma_swapped(s, index, b);
        lemma_shuffled(swapped(s, index, b), next, index - 1);
    }
}

/// A shuffle keeps every item, as often as it occurs.
pub proof fn shuffle_is_a_permutation<T>(s: Seq<T>, seed: u64)
    ensures
        shuffled_from(s, seed).len() == s.len(),
        shuffled_from(s, seed).to_multiset() == s.to_multiset(),
{
    lemma_shuffled(s, seed, s.len() - 1);
}

/// Exchanges two items of a slice.
fn swap_items<T>(items: &mut [T], low: usize, high: usize)
    requires
        low < high < old(items)@.len(),
    ensures
        final(items)@ == swapped(old(items)@, high as int, low as int),
{
    let (left, right) = items.split_at_mut(high);
    core::mem::swap(&mut left[low], &mut right[0]);
}

/// Shuffles a slice by exchanges that the seed decides.
pub fn shuffle_with_seed<T>(items: &mut [T], seed: u64)
    ensures
        final(items)@ == shuffled_from(old(items)@, seed),
{
    let total: usize = items.len();
    if total == 0 {
        return;
    }
    let mut state: u64 = seed;
    let mut index: usize = total - 1;
    while index > 0
        invariant
            items@.len() == total,
            index < total,
            shuffled(items@, state, index as int) == shuffled_from(old(items)@, seed),
        decreases index,
    {
        let ghost before = items@;
        proof {
            assert(next_state(state) == state.wrapping_mul(6364136223846793005).wrapping_add(1))
                by {
                lemma_wrapping_step(state);
            }
        }
        state = state.wrapping_mul(6364136223846793005).wrapping_add(1);
        let other: usize = (#[verifier::truncate] (state as usize)) % (index + 1);
        if other < index {
            swap_items(items, other, index);
        }
        assert(items@ =~= swapped(before, index as int, other as int));
        index -= 1;
    }
}

/// One step of the generator in wrapping arithmetic.
proof fn lemma_wrapping_step(state: u64)
    ensures
        next_state(state) == state.wrapping_mul(6364136223846793005).wrapping_add(1),
{
    let m: int = 0x1_0000_0000_0000_0000;
    let p: int = state * 6364136223846793005;
    assert(state.wrapping_mul(6364136223846793005) == p % m);
    vstd::arithmetic::div_mod::lemma_add_mod_noop(p, 1, m);
    assert((p + 1) % m == (p % m + 1int % m) % m);
    assert((p % m + 1) % m == if p % m + 1 >= m { p % m + 1 - m } else { p % m + 1 });
}

/// `std::time::SystemTime`, carried from one call to the next.
#[verifier::external_type_specification]
#[verifier::external_body]
pub struct ExternalSystemTime(std::time::SystemTime);

/// `std::time::SystemTimeError`, of which nothing is read.
#[verifier::external_type_specification]
#[verifier::external_body]
pub struct ExternalSystemTimeError(std::time::SystemTimeError);

/// `std::time::SystemTime::now`. Nothing is claimed of the time.
#[verifier::external_body]
fn time_now() -> (r: std::time::SystemTime) {
    std::time::SystemTime::now()
}

/// `SystemTime::duration_since`, from the epoch on. Nothing is claimed of how
/// long that is, nor whether the time is before the epoch.
#[verifier::external_body]
fn since_epoch(time: std::time::SystemTime) -> (r: Result<
    std::time::Duration,
    std::time::SystemTimeError,
>) {
    time.duration_since(std::time::UNIX_EPOCH)
}

/// `Duration::as_nanos`. Nothing is claimed of the number.
#[verifier::external_body]
fn whole_nanos(duration: std::time::Duration) -> (r: u128) {
    duration.as_nanos()
}

/// A seed from the time: the lowest 64 bits of the nanoseconds since the epoch,
/// or zero before it.
fn clock_seed() -> (r: u64) {
    match since_epoch(time_now()) {
        Ok(duration) => #[verifier::truncate] (whole_nanos(duration) as u64),
        Err(_) => 0,
    }
}

/// Shuffles a slice by exchanges that the time decides.
pub fn shuffle_slice<T>(items: &mut [T])
    ensures
        exists|seed: u64| final(items)@ == #[trigger] shuffled_from(old(items)@, seed),
        final(items)@.len() == old(items)@.len(),
        final(items)@.to_multiset() == old(items)@.to_multiset(),
{
    let seed: u64 = clock_seed();
    shuffle_with_seed(items, seed);
    proof {
        shuffle_is_a_permutation(old(items)@, seed);
    }
}

/// The position of the first item that equals `item`, or the length.
pub open spec fn first_equal<T: PartialEq>(items: Seq<T>, item: T) -> nat
    decreases items.len(),
{
    if items.len() == 0 {
        0
    } else if items[0].eq_spec(&item) {
        0
    } else {
        1 + first_equal(items.skip(1), item)
    }
}

/// The items in the order of `original`, each item of which takes the first
/// equal one that is left; items that `original` lacks keep their order behind
/// the others.
pub open spec fn restored<T: PartialEq>(items: Seq<T>, original: Seq<T>) -> Seq<T>
    decreases original.len(),
{
    if original.len() == 0 {
        items
    } else {
        let at = first_equal(items, original[0]) as int;
        if at < items.len() {
            seq![items[at]] + restored(items.remove(at), original.skip(1))
        } else {
            restored(items, original.skip(1))
        }
    }
}

proof fn lemma_first_equal<T: PartialEq>(items: Seq<T>, item: T)
    ensures
        first_equal(items, item) <= items.len(),
        forall|i: int|
            0 <= i < first_equal(items, item) ==> !(#[trigger] items[i]).eq_spec(&item),
        first_equal(items, item) < items.len() ==> items[first_equal(items, item) as int].eq_spec(
            &item,
        ),
    decreases items.len(),
{
    if items.len() > 0 && !items[0].eq_spec(&item) {
        lemma_first_equal(items.skip(1), item);
        assert forall|i: int| 0 <= i < first_equal(items, item) implies !(
        #[trigger] items[i]).eq_spec(&item) by {
            if i > 0 {
                assert(items[i] == items.skip(1)[i - 1]);
            }
        }
    }
}

pub proof fn lemma_first_equal_is<T: PartialEq>(items: Seq<T>, item: T, at: int)
    requires
        0 <= at <= items.len(),
        forall|i: int| 0 <= i < at ==> !(#[trigger] items[i]).eq_spec(&item),
        at < items.len() ==> items[at].eq_spec(&item),
    ensures
        first_equal(items, item) == at,
{
    lemma_first_equal(items, item);
}

/// Restoring the order keeps every item, as often as it occurs.
pub proof fn restoring_is_a_permutation<T: PartialEq>(items: Seq<T>, original: Seq<T>)
    ensures
        restored(items, original).len() == items.len(),
        restored(items, original).to_multiset() == items.to_multiset(),
    decreases original.len(),
{
    if original.len() > 0 {
        lemma_first_equal(items, original[0]);
        let at = first_equal(items, original[0]) as int;
        if at < items.len() {
            let rest = restored(items.remove(at), original.skip(1));
            restoring_is_a_permutation(items.remove(at), original.skip(1));
            vstd::seq_lib::lemma_multiset_commutative(seq![items[at]], rest);
            assert(items.to_multiset() =~= items.remove(at).to_multiset().insert(items[at]));
            assert(seq![items[at]].to_multiset() =~= vstd::multiset::Multiset::singleton(items[at]))
                by {
                assert(seq![items[at]] =~= Seq::<T>::empty().push(items[at]));
            }
            assert(restored(items, original).to_multiset() =~= items.to_multiset());
        } else {
            restoring_is_a_permutation(items, original.skip(1));
        }
    }
}

/// Where `==` tells items apart, restoring the order undoes every change of
/// order: whatever permutation of a track list is given, the list comes back.
pub proof fn restoring_undoes_a_shuffle<T: PartialEq>(items: Seq<T>, original: Seq<T>)
    requires
        forall|x: T, y: T| #[trigger] x.eq_spec(&y) <==> x == y,
        items.to_multiset() == original.to_multiset(),
    ensures
        restored(items, original) == original,
    decreases original.len(),
{
    assert(items.len() == items.to_multiset().len());
    assert(original.len() == original.to_multiset().len());
    if original.len() > 0 {
        lemma_first_equal(items, original[0]);
        let at = first_equal(items, original[0]) as int;
        assert(original.contains(original[0]));
        assert(original.to_multiset().count(original[0]) > 0);
        assert(items.contains(original[0]));
        let k = choose|k: int| 0 <= k < items.len() && items[k] == original[0];
        assert(items[k].eq_spec(&original[0]));
        assert(at < items.len());
        assert(items[at].eq_spec(&original[0]));
        assert(original.skip(1) =~= original.remove(0));
        assert(items.remove(at).to_multiset() =~= original.skip(1).to_multiset());
        restoring_undoes_a_shuffle(items.remove(at), original.skip(1));
        assert(seq![original[0]] + original.skip(1) =~= original);
    } else {
        assert(items =~= original);
    }
}

/// Where `==` tells items apart, restoring the order depends on nothing but
/// which tracks are left, if the track list has all of them.
pub proof fn restoring_forgets_the_order<T: PartialEq>(a: Seq<T>, b: Seq<T>, original: Seq<T>)
    requires
        forall|x: T, y: T| #[trigger] x.eq_spec(&y) <==> x == y,
        a.to_multiset() == b.to_multiset(),
        a.to_multiset().subset_of(original.to_multiset()),
    ensures
        restored(a, original) == restored(b, original),
    decreases original.len(),
{
    assert(a.len() == a.to_multiset().len());
    assert(b.len() == b.to_multiset().len());
    if original.len() == 0 {
        assert(original.to_multiset().len() == 0);
        assert(a.len() == 0) by {
            if a.len() > 0 {
                assert(a.contains(a[0]));
                assert(a.to_multiset().count(a[0]) > 0);
                assert(original.contains(a[0]));
            }
        }
        assert(a =~= b);
    } else {
        let x = original[0];
        let rest = original.skip(1);
        lemma_first_equal(a, x);
        lemma_first_equal(b, x);
        let i = first_equal(a, x) as int;
        let j = first_equal(b, x) as int;
        assert(rest =~= original.remove(0));
        if a.contains(x) {
            let k = choose|k: int| 0 <= k < a.len() && a[k] == x;
            assert(a[k].eq_spec(&x));
            assert(a.to_multiset().count(x) > 0);
            assert(b.contains(x));
            let m = choose|m: int| 0 <= m < b.len() && b[m] == x;
            assert(b[m].eq_spec(&x));
            assert(i < a.len() && j < b.len());
            assert(a[i].eq_spec(&x) && b[j].eq_spec(&x));
            assert(a.remove(i).to_multiset() =~= b.remove(j).to_multiset());
            restoring_forgets_the_order(a.remove(i), b.remove(j), rest);
        } else {
            assert(i == a.len()) by {
                if i < a.len() {
                    assert(a[i].eq_spec(&x));
                    assert(a.contains(x));
                }
            }
            assert(!b.contains(x)) by {
                if b.contains(x) {
                    assert(b.to_multiset().count(x) > 0);
                }
            }
            assert(j == b.len()) by {
                if j < b.len() {
                    assert(b[j].eq_spec(&x));
                    assert(b.contains(x));
                }
            }
            assert(a.to_multiset().count(x) == 0);
            restoring_forgets_the_order(a, b, rest);
        }
    }
}

/// Brings items back into the order of a track list.
pub fn restore_order<T: PartialEq>(items: &mut Vec<T>, original: &[T])
    ensures
        final(items)@.len() == old(items)@.len(),
        final(items)@.to_multiset() == old(items)@.to_multiset(),
        T::obeys_eq_spec() ==> final(items)@ == restored(old(items)@, original@),
{
    let mut ordered: Vec<T> = Vec::new();
    let mut next: usize = 0;
    assert(original@.skip(0) =~= original@);
    assert(ordered@ + items@ =~= items@);
    while next < original.len()
        invariant
            next <= original@.len(),
            ordered@.len() + items@.len() == old(items)@.len(),
            (ordered@ + items@).to_multiset() == old(items)@.to_multiset(),
            T::obeys_eq_spec() ==> ordered@ + restored(items@, original@.skip(next as int))
                == restored(old(items)@, original@),
        decreases original@.len() - next,
    {
        let ghost todo = original@.skip(next as int);
        let ghost before = items@;
        let ghost done = ordered@;
        assert(todo.skip(1) =~= original@.skip(next + 1));
        let mut at: usize = 0;
        while at < items.len() && !(items[at] == original[next])
            invariant
                at <= items@.len(),
                next < original@.len(),
                T::obeys_eq_spec() ==> forall|i: int|
                    0 <= i < at ==> !(#[trigger] items@[i]).eq_spec(&original@[next as int]),
            ensures
                at <= items@.len(),
                T::obeys_eq_spec() ==> forall|i: int|
                    0 <= i < at ==> !(#[trigger] items@[i]).eq_spec(&original@[next as int]),
                T::obeys_eq_spec() && at < items@.len() ==> items@[at as int].eq_spec(
                    &original@[next as int],
                ),
            decreases items@.len() - at,
        {
            at += 1;
        }
        proof {
            assert(todo[0] == original@[next as int]);
            if T::obeys_eq_spec() {
                lemma_first_equal_is(items@, todo[0], at as int);
            }
        }
        if at < items.len() {
            let item = items.remove(at);
            ordered.push(item);
            proof {
                assert(done.push(before[at as int]) + restored(before.remove(at as int), todo.skip(1))
                    =~= done + (seq![before[at as int]] + restored(
                    before.remove(at as int),
                    todo.skip(1),
                )));
                vstd::seq_lib::lemma_multiset_commutative(done, before);
                vstd::seq_lib::lemma_multiset_commutative(ordered@, items@);
                assert((ordered@ + items@).to_multiset() =~= (done + before).to_multiset());
            }
        }
        next += 1;
    }
    assert(original@.skip(next as int) =~= Seq::<T>::empty());
    ordered.append(items);
    core::mem::swap(items, &mut ordered);
}

/// Shuffles the rest of the track list, or brings it back into order. What was
/// played, the current track and the queued tracks keep their places.
pub fn set_shuffle_order<T: PartialEq>(
    queue: &mut Vec<T>,
    current: usize,
    play_next: usize,
    original: &[T],
    shuffle: bool,
)
    ensures
        ({
            let start = tail_start(current as int, play_next as int, old(queue)@.len() as int);
            let tail = old(queue)@.skip(start);
            let after = final(queue)@.skip(start);
            &&& final(queue)@.len() == old(queue)@.len()
            &&& final(queue)@.take(start) == old(queue)@.take(start)
            &&& after.to_multiset() == tail.to_multiset()
            &&& shuffle ==> exists|seed: u64| after == #[trigger] shuffled_from(tail, seed)
            &&& !shuffle && T::obeys_eq_spec() ==> after == restored(tail, original@)
        }),
{
    let start: usize = tail_index(current, play_next, queue.len());
    let mut tail = queue.split_off(start);
    let ghost rest = tail@;
    if shuffle {
        shuffle_slice(tail.as_mut_slice());
    } else {
        restore_order(&mut tail, original);
    }
    let ghost turned = tail@;
    queue.append(&mut tail);
    proof {
        assert(rest =~= old(queue)@.skip(start as int));
        assert(queue@.skip(start as int) =~= turned);
        assert(queue@.take(start as int) =~= old(queue)@.take(start as int));
    }
}

/// Orders a track list for another pass over it.
pub fn restart_pass_order<T: PartialEq>(queue: &mut Vec<T>, original: &[T], shuffle: bool)
    ensures
        final(queue)@.len() == old(queue)@.len(),
        final(queue)@.to_multiset() == old(queue)@.to_multiset(),
        shuffle ==> exists|seed: u64| final(queue)@ == #[trigger] shuffled_from(old(queue)@, seed),
        !shuffle && T::obeys_eq_spec() ==> final(queue)@ == restored(old(queue)@, original@),
{
    if shuffle {
        shuffle_slice(queue.as_mut_slice());
    } else {
        restore_order(queue, original);
    }
}

// ---------------------------------------------------------------------------
// What holds of every queue
// ---------------------------------------------------------------------------

/// The next track is the one behind the current one; loop `One` repeats a track
/// that ends, and behind the last one only loop `All` goes on, with the first.
pub proof fn next_is_the_track_behind(current: int, count: int, mode: LoopMode, natural_end: bool)
    requires
        0 <= current < count,
    ensures
        ({
            let next = next_track(current, count, mode, natural_end);
            let repeats = natural_end && mode == LoopMode::One;
            &&& repeats ==> next == Some(current)
            &&& !repeats && current < count - 1 ==> next == Some(current + 1)
            &&& !repeats && current == count - 1 ==> next == if mode == LoopMode::All {
                Some(0int)
            } else {
                None
            }
            &&& forward_step(current, count, mode, natural_end, None) == match next {
                Some(n) => Some((n, n == 0 && current != 0, true)),
                None => None,
            }
        }),
        forall|back: usize| #[trigger]
            forward_step(current, count, mode, natural_end, Some(back)) == Some(
                (back as int, false, false),
            ),
{
}

/// Previous undoes Next within the list, and goes round from the first track to
/// the last.
pub proof fn previous_undoes_next(current: int, count: int, mode: LoopMode)
    requires
        0 <= current < count,
    ensures
        current > 0 ==> previous_track(current, count) == current - 1,
        previous_track(0, count) == count - 1,
        current + 1 < count ==> next_track(current, count, mode, false) == Some(current + 1)
            && previous_track(current + 1, count) == current,
{
}

/// Tracks are queued behind those that are queued already, and at the end where
/// fewer are left than that.
pub proof fn queueing_splits_the_list<T>(
    queue: Seq<T>,
    current: int,
    play_next: int,
    additions: Seq<T>,
)
    requires
        0 <= current < queue.len(),
        0 <= play_next,
    ensures
        current + 1 + play_next <= queue.len() ==> with_next(queue, current, play_next, additions)
            == queue.take(current + 1 + play_next) + additions + queue.skip(
            current + 1 + play_next,
        ),
        current + 1 + play_next >= queue.len() ==> with_next(queue, current, play_next, additions)
            == queue + additions,
{
    if current + 1 + play_next >= queue.len() {
        assert(with_next(queue, current, play_next, additions) =~= queue + additions);
    }
}

/// A shuffle draws the last track first: by the next number of the generator,
/// modulo the number of tracks, of which the last takes the place. The others are
/// shuffled in the same way from there on.
pub proof fn shuffles_draw_by_the_generator<T>(s: Seq<T>, seed: u64)
    requires
        1 < s.len() <= usize::MAX,
    ensures
        ({
            let next = ((seed * 6364136223846793005 + 1) % 0x1_0000_0000_0000_0000) as u64;
            let drawn = (#[verifier::truncate] (next as usize)) as int % s.len() as int;
            let rest = s.update(drawn, s.last()).drop_last();
            &&& 0 <= drawn < s.len()
            &&& shuffled_from(s, seed) == shuffled_from(rest, next).push(s[drawn])
        }),
        shuffled_from(s.take(1), seed) == s.take(1),
        shuffled_from(s.take(0), seed) == s.take(0),
{
    let next = next_state(seed);
    let last = s.len() - 1;
    let drawn = partner(next, last);
    let swap = swapped(s, last, drawn);
    let rest = s.update(drawn, s.last()).drop_last();
    assert(swap =~= rest.push(s[drawn]));
    lemma_shuffled_in_front(rest, s[drawn], next, last - 1);
}

proof fn lemma_shuffled_in_front<T>(s: Seq<T>, x: T, state: u64, index: int)
    requires
        index < s.len(),
    ensures
        shuffled(s.push(x), state, index) == shuffled(s, state, index).push(x),
    decreases index,
{
    if index > 0 {
        let next = next_state(state);
        let other = partner(next, index);
        assert(swapped(s.push(x), index, other) =~= swapped(s, index, other).push(x));
        lemma_shuffled_in_front(swapped(s, index, other), x, next, index - 1);
    }
}

/// What is not in the original order keeps its own, behind what is.
pub proof fn strangers_stay_behind<T: PartialEq>(items: Seq<T>, original: Seq<T>)
    requires
        forall|i: int, k: int|
            #![trigger items[i], original[k]]
            0 <= i < items.len() && 0 <= k < original.len() ==> !items[i].eq_spec(&original[k]),
    ensures
        restored(items, original) == items,
    decreases original.len(),
{
    if original.len() > 0 {
        lemma_first_equal_is(items, original[0], items.len() as int);
        assert forall|i: int, k: int|
            #![trigger items[i], original.skip(1)[k]]
            0 <= i < items.len() && 0 <= k < original.skip(1).len() implies !items[i].eq_spec(
            &original.skip(1)[k],
        ) by {
            assert(original.skip(1)[k] == original[k + 1]);
        }
        strangers_stay_behind(items, original.skip(1));
    }
}

/// A page is opened so that the highlighted row is in its middle, as far as the
/// list has rows for it.
pub proof fn pages_centre_the_row(at: int, length: int, page: int)
    requires
        0 <= at < length,
        0 < page,
    ensures
        ({
            let start = window_start(at, length, page);
            &&& length <= page ==> start == 0
            &&& length > page && at <= page / 2 ==> start == 0
            &&& length > page && page / 2 <= at <= length - page + page / 2 ==> start == at - page
                / 2
            &&& length > page && at >= length - page + page / 2 ==> start == length - page
        }),
{
}

/// A part of the list that the selected track is not in is shown from its start,
/// and one that it is in with the track in the middle of the page.
pub proof fn parts_are_shown_around_the_track(selected: int, start: int, end: int, page_size: int)
    requires
        0 <= start <= end,
        0 < page_size,
    ensures
        selected < start || selected >= end ==> segment_window(selected, start, end, page_size) == 0,
        start <= selected < end ==> segment_window(selected, start, end, page_size) == window_start(
            selected - start,
            end - start,
            page_size,
        ),
{
}

/// A queued track that is taken back goes to the end of the list, unless one that
/// equals it is to come behind the queued ones.
pub proof fn unqueued_tracks_stay_to_come<T: PartialEq>(
    queue: Seq<T>,
    current: int,
    play_next: int,
    remove: int,
)
    requires
        0 <= current < remove <= current + play_next < queue.len(),
    ensures
        ({
            let after = without_next(queue, current, play_next, remove);
            let held = exists|i: int|
                current + play_next < i < queue.len() && (#[trigger] queue[i]).eq_spec(
                    &queue[remove],
                );
            after == if held {
                queue.remove(remove)
            } else {
                queue.remove(remove).push(queue[remove])
            }
        }),
{
    let tail = queue.remove(remove).skip(current + play_next);
    assert forall|i: int| 0 <= i < tail.len() implies tail[i] == #[trigger] queue[current
        + play_next + 1 + i] by {}
    if exists|i: int|
        current + play_next < i < queue.len() && (#[trigger] queue[i]).eq_spec(&queue[remove]) {
        let i = choose|i: int|
            current + play_next < i < queue.len() && (#[trigger] queue[i]).eq_spec(&queue[remove]);
        assert(tail[i - current - play_next - 1] == queue[i]);
        assert(holds(tail, queue[remove]));
    } else if holds(tail, queue[remove]) {
        let i = choose|i: int|
            0 <= i < tail.len() && (#[trigger] tail[i]).eq_spec(&queue[remove]);
        assert(queue[current + play_next + 1 + i] == tail[i]);
    }
}

} // verus!
