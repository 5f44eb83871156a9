use vstd::prelude::*;

verus! {

/// The word shown by rapid serial presentation, cut around its optimal
/// recognition point: `center` is the character at that point, and
/// `left` and `right` are padded with spaces to the same width, so that
/// the center stays in the middle of the screen.
pub struct OrpDisplay {
    pub left: String,
    pub center: String,
    pub right: String,
}

/// The position of the recognition point in a word of `len` characters:
/// the requested one, or the last character when the word is shorter.
pub open spec fn orp_focus(len: int, orp_index: int) -> int {
    if orp_index < len - 1 { orp_index } else { len - 1 }
}

pub open spec fn spaces(n: int) -> Seq<char> {
    Seq::new(n as nat, |i: int| ' ')
}

/// The width of each side around the recognition point.
pub open spec fn side_width(len: int, focus: int) -> int {
    if focus >= len - focus - 1 { focus } else { len - focus - 1 }
}

fn push_spaces(s: &mut String, n: usize)
    ensures
        final(s)@ == old(s)@ + spaces(n as int),
{
    let mut i: usize = 0;
    while i < n
        invariant
            i <= n,
            s@ == old(s)@ + spaces(i as int),
        decreases n - i,
    {
        proof {
            reveal_strlit(" ");
        }
        s.append(" ");
        assert(old(s)@ + spaces(i as int) + " "@ =~= old(s)@ + spaces(i + 1));
        i = i + 1;
    }
}

/// Cuts a non-empty word around its recognition point, as the presentation
/// draws it: the characters before the point right-aligned, the point, and
/// the characters after it left-aligned, both sides as wide as the wider.
pub fn orp_display(text: &str, orp_index: usize) -> (d: OrpDisplay)
    requires
        text@.len() > 0,
    ensures
        ({
            let n = text@.len() as int;
            let o = orp_focus(n, orp_index as int);
            let side = side_width(n, o);
            &&& d.center@ == text@.subrange(o, o + 1)
            &&& d.left@ == spaces(side - o) + text@.subrange(0, o)
            &&& d.right@ == text@.subrange(o + 1, n) + spaces(side - (n - o - 1))
        }),
        d.left@.len() == d.right@.len(),
        d.center@.len() == 1,
        ({
            let n = text@.len() as int;
            let o = orp_focus(n, orp_index as int);
            d.left@.skip(d.left@.len() - o) + d.center@ + d.right@.take(n - o - 1) == text@
        }),
{
    let n = text.unicode_len();
    let o = if orp_index < n - 1 { orp_index } else { n - 1 };
    let after = n - o - 1;
    let side = if o >= after { o } else { after };
    let mut left = String::new();
    push_spaces(&mut left, side - o);
    left.append(text.substring_char(0, o));
    let center = String::from_str(text.substring_char(o, o + 1));
    let mut right = String::from_str(text.substring_char(o + 1, n));
    push_spaces(&mut right, side - after);
    assert(left@.skip(left@.len() - o) + center@ + right@.take(n - o - 1) =~= text@);
    OrpDisplay { left, center, right }
}

/// The keys the presentation acts on.
#[derive(Clone, Copy, PartialEq, Eq, Debug)]
pub enum RsvpKey {
    Quit,
    TogglePause,
    Back,
    Forward,
    Faster,
    Slower,
    Other,
}

/// A change of reading speed asked for by a key.
#[derive(Clone, Copy, PartialEq, Eq, Debug)]
pub enum SpeedChange {
    Faster,
    Slower,
    Unchanged,
}

/// Where the presentation stands.
#[derive(Clone, Copy, PartialEq, Eq, Debug)]
pub struct RsvpState {
    pub current: usize,
    pub paused: bool,
}

/// The outcome of a key press during the presentation.
#[derive(Clone, Copy, PartialEq, Eq, Debug)]
pub struct RsvpStep {
    pub state: RsvpState,
    pub quit: bool,
    /// Whether the reading position is to be saved now.
    pub save_progress: bool,
    pub speed: SpeedChange,
}

/// Handles a key of the presentation over `total` words, `total` being at
/// least 1: `q` or Esc quits, Space pauses or resumes (in a compiled book,
/// quitting and pausing save the position), Left and Right move ten words, Up
/// and Down ask for a faster or slower pace.
pub fn rsvp_key(state: RsvpState, key: RsvpKey, total: usize, saves_progress: bool) -> (r: RsvpStep)
    requires
        total >= 1,
        key == RsvpKey::Forward ==> state.current + 10 <= usize::MAX,
    ensures
        r.quit == (key == RsvpKey::Quit),
        r.state.paused == if key == RsvpKey::TogglePause { !state.paused } else { state.paused },
        r.save_progress == (saves_progress && (key == RsvpKey::Quit || (key == RsvpKey::TogglePause
            && !state.paused))),
        r.speed == match key {
            RsvpKey::Faster => SpeedChange::Faster,
            RsvpKey::Slower => SpeedChange::Slower,
            _ => SpeedChange::Unchanged,
        },
        r.state.current == match key {
            RsvpKey::Back => if state.current >= 10 { state.current - 10 } else { 0 },
            RsvpKey::Forward => if state.current + 10 < total - 1 { state.current + 10 } else { total - 1 },
            _ => state.current as int,
        },
        state.current < total ==> r.state.current < total,
        key == RsvpKey::TogglePause ==> {
            &&& r.state.current == state.current
            &&& r.speed == SpeedChange::Unchanged
            &&& !r.quit
            &&& r.save_progress == (r.state.paused && saves_progress)
        },
        r.state.current != state.current ==> key == RsvpKey::Back || key == RsvpKey::Forward,
{
    let mut next = state;
    let mut quit = false;
    let mut save_progress = false;
    let mut speed = SpeedChange::Unchanged;
    match key {
        RsvpKey::Quit => {
            quit = true;
            save_progress = saves_progress;
        },
        RsvpKey::TogglePause => {
            next.paused = !state.paused;
            save_progress = next.paused && saves_progress;
        },
        RsvpKey::Back => {
            next.current = state.current.saturating_sub(10);
        },
        RsvpKey::Forward => {
            let last = total - 1;
            next.current = if state.current + 10 < last { state.current + 10 } else { last };
        },
        RsvpKey::Faster => {
            speed = SpeedChange::Faster;
        },
        RsvpKey::Slower => {
            speed = SpeedChange::Slower;
        },
        RsvpKey::Other => {},
    }
    RsvpStep { state: next, quit, save_progress, speed }
}

/// The outcome of a tick of the presentation.
#[derive(Clone, Copy, PartialEq, Eq, Debug)]
pub struct RsvpAdvance {
    pub state: RsvpState,
    /// Whether the presentation passed its last word and ends.
    pub finished: bool,
    /// Whether the reading position is to be saved now.
    pub save_progress: bool,
}

/// The next word of the presentation once the current one has been shown
/// long enough: nothing moves while paused or while the delay runs; the
/// presentation ends when it passes the last of `total` words, and then
/// saves the position in a compiled book.
pub fn rsvp_tick(state: RsvpState, delay_elapsed: bool, total: usize, saves_progress: bool) -> (r: RsvpAdvance)
    requires
        state.current < usize::MAX,
    ensures
        r.state.paused == state.paused,
        r.state.current == if !state.paused && delay_elapsed { state.current + 1 } else { state.current as int },
        r.finished == (!state.paused && delay_elapsed && state.current + 1 >= total),
        r.save_progress == (r.finished && saves_progress),
        state.paused ==> r.state == state && !r.finished,
{
    if !state.paused && delay_elapsed {
        let current = state.current + 1;
        let finished = current >= total;
        RsvpAdvance { state: RsvpState { current, paused: state.paused }, finished, save_progress: finished && saves_progress }
    } else {
        RsvpAdvance { state, finished: false, save_progress: false }
    }
}

} // verus!
