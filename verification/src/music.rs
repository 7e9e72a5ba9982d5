//! The musical model: twelve-tone notes, scale steps, and the scale that
//! maps a played note's position onto a pitch.

use vstd::prelude::*;

verus! {

/// An interval between scale degrees.
#[derive(Clone, Copy, Debug, PartialEq, Eq, Structural)]
pub enum Step {
    Half,
    Whole,
}

/// The twelve notes of the chromatic scale.
#[derive(Clone, Copy, Debug, PartialEq, Eq, Structural)]
pub enum Note {
    A,
    As,
    B,
    C,
    Cs,
    D,
    Ds,
    E,
    F,
    Fs,
    G,
    Gs,
}

/// The note one step above `n`.
pub open spec fn next_note(n: Note, step: Step) -> Note {
    match step {
        Step::Half => match n {
            Note::A => Note::As,
            Note::As => Note::B,
            Note::B => Note::C,
            Note::C => Note::Cs,
            Note::Cs => Note::D,
            Note::D => Note::Ds,
            Note::Ds => Note::E,
            Note::E => Note::F,
            Note::F => Note::Fs,
            Note::Fs => Note::G,
            Note::G => Note::Gs,
            Note::Gs => Note::A,
        },
        Step::Whole => match n {
            Note::A => Note::B,
            Note::As => Note::C,
            Note::B => Note::Cs,
            Note::C => Note::D,
            Note::Cs => Note::Ds,
            Note::D => Note::E,
            Note::Ds => Note::F,
            Note::E => Note::Fs,
            Note::F => Note::G,
            Note::Fs => Note::Gs,
            Note::G => Note::A,
            Note::Gs => Note::As,
        },
    }
}

impl Note {
    /// The note one `step` above `self`.
    pub fn next(&self, step: &Step) -> (r: Note)
        ensures
            r == next_note(*self, *step),
    {
        match step {
            Step::Half => match self {
                Note::A => Note::As,
                Note::As => Note::B,
                Note::B => Note::C,
                Note::C => Note::Cs,
                Note::Cs => Note::D,
                Note::D => Note::Ds,
                Note::Ds => Note::E,
                Note::E => Note::F,
                Note::F => Note::Fs,
                Note::Fs => Note::G,
                Note::G => Note::Gs,
                Note::Gs => Note::A,
            },
            Step::Whole => match self {
                Note::A => Note::B,
                Note::As => Note::C,
                Note::B => Note::Cs,
                Note::C => Note::D,
                Note::Cs => Note::Ds,
                Note::D => Note::E,
                Note::Ds => Note::F,
                Note::E => Note::Fs,
                Note::F => Note::G,
                Note::Fs => Note::Gs,
                Note::G => Note::A,
                Note::Gs => Note::As,
            },
        }
    }
}

/// The note reached from `root` by walking the first `k` entries of `steps`.
pub open spec fn scale_note(root: Note, steps: Seq<Step>, k: int) -> Note
    decreases k,
{
    if k <= 0 {
        root
    } else {
        next_note(scale_note(root, steps, k - 1), steps[k - 1])
    }
}

/// The scale degree that a 1-based index selects: indexes 0 and 1 both give
/// the root, and indexes past the scale's size wrap around.
pub open spec fn scale_degree(index: u8, steps_len: int) -> int {
    if index == 0 {
        0
    } else {
        (index - 1) % (steps_len + 1)
    }
}

/// A musical scale: a root note and the steps between consecutive degrees
/// (the last step back up to the root is not listed).
pub trait Scale: Sized {
    spec fn steps_spec(&self) -> Seq<Step>;

    spec fn root_spec(&self) -> Note;

    fn steps(&self) -> (r: Vec<Step>)
        ensures
            r@ == self.steps_spec(),
    ;

    fn root(&self) -> (r: &Note)
        ensures
            *r == self.root_spec(),
    ;

    /// Number of degrees in the scale: one more than the listed steps.
    fn size(&self) -> (r: u8)
        requires
            self.steps_spec().len() + 1 <= u8::MAX,
        ensures
            r == self.steps_spec().len() + 1,
    ;

    /// The note of the scale selected by a 1-based `index`; higher indexes
    /// wrap around the scale.
    fn get(&self, index: u8) -> (r: Note)
        requires
            self.steps_spec().len() + 1 <= u8::MAX,
        ensures
            r == scale_note(
                self.root_spec(),
                self.steps_spec(),
                scale_degree(index, self.steps_spec().len() as int),
            ),
    ;
}

/// The natural minor scale on a chosen root.
pub struct NaturalMinorScale {
    root: Note,
}

impl NaturalMinorScale {
    pub fn new(root: Note) -> (r: NaturalMinorScale)
        ensures
            r.root_spec() == root,
            r.steps_spec() == natural_minor_steps(),
    {
        NaturalMinorScale { root }
    }
}

/// The interval pattern of the natural minor scale (the last step back to
/// the root is not listed).
pub open spec fn natural_minor_steps() -> Seq<Step> {
    seq![Step::Whole, Step::Half, Step::Whole, Step::Whole, Step::Half, Step::Whole]
}

impl Scale for NaturalMinorScale {
    open spec fn steps_spec(&self) -> Seq<Step> {
        natural_minor_steps()
    }

    closed spec fn root_spec(&self) -> Note {
        self.root
    }

    fn steps(&self) -> (r: Vec<Step>)
    {
        let mut v: Vec<Step> = Vec::new();
        v.push(Step::Whole);
        v.push(Step::Half);
        v.push(Step::Whole);
        v.push(Step::Whole);
        v.push(Step::Half);
        v.push(Step::Whole);
        proof {
            assert(v@ =~= natural_minor_steps());
        }
        v
    }

    fn root(&self) -> (r: &Note) {
        &self.root
    }

    fn size(&self) -> (r: u8) {
        7
    }

    fn get(&self, index: u8) -> (r: Note) {
        let degree: u8 = if index == 0 { 0 } else { (index - 1) % 7 };
        proof {
            assert(natural_minor_steps().len() == 6);
            assert(degree as int == scale_degree(index, 6));
        }
        let steps = self.steps();
        let mut result: Note = self.root;
        let mut k: usize = 0;
        while k < degree as usize
            invariant
                k <= degree,
                degree < 7,
                steps@ == natural_minor_steps(),
                result == scale_note(self.root, natural_minor_steps(), k as int),
            decreases degree as int - k,
        {
            result = result.next(&steps[k]);
            k = k + 1;
        }
        result
    }
}

/// Map from pitch to the identity of the audio player currently sounding
/// it, so a new strike of the same pitch can silence the previous one.
pub struct ActivePlayer(pub Vec<(Note, u64)>);

/// No pitch appears twice in the player map.
pub open spec fn player_keys_unique(s: Seq<(Note, u64)>) -> bool {
    forall|i: int, j: int| 0 <= i < j < s.len() ==> (#[trigger] s[i]).0 != (#[trigger] s[j]).0
}

impl ActivePlayer {
    pub fn new() -> (r: ActivePlayer)
        ensures
            r.0@.len() == 0,
            player_keys_unique(r.0@),
    {
        ActivePlayer(Vec::new())
    }

    /// Record that `player` now sounds `note`, returning the player that
    /// sounded it before, if any, so the host can silence it.
    pub fn note_on(&mut self, note: Note, player: u64) -> (stopped: Option<u64>)
        requires
            player_keys_unique(old(self).0@),
        ensures
            player_keys_unique(final(self).0@),
            match stopped {
                Some(prev) => exists|k: int|
                    0 <= k < old(self).0@.len() && old(self).0@[k] == (note, prev) && final(self).0@ == old(self).0@.update(k, (note, player)),
                None => (forall|k: int|
                    0 <= k < old(self).0@.len() ==> (#[trigger] old(self).0@[k]).0 != note) && final(self).0@ == old(self).0@.push((note, player)),
            },
    {
        let n = self.0.len();
        let mut k: usize = 0;
        while k < n
            invariant
                player_keys_unique(old(self).0@),
                *self == *old(self),
                n == self.0@.len(),
                k <= n,
                forall|m: int| 0 <= m < k ==> (#[trigger] self.0@[m]).0 != note,
            decreases n - k,
        {
            if self.0[k].0 == note {
                let prev = self.0[k].1;
                self.0[k] = (note, player);
                proof {
                    assert forall|i: int, j: int|
                        0 <= i < j < self.0@.len() implies (#[trigger] self.0@[i]).0 != (
                        #[trigger] self.0@[j]).0 by {
                        assert(old(self).0@[i].0 != old(self).0@[j].0);
                    }
                }
                return Some(prev);
            }
            k = k + 1;
        }
        self.0.push((note, player));
        proof {
            assert forall|i: int, j: int|
                0 <= i < j < self.0@.len() implies (#[trigger] self.0@[i]).0 != (
                #[trigger] self.0@[j]).0 by {
                if j < self.0@.len() - 1 {
                    assert(old(self).0@[i].0 != old(self).0@[j].0);
                } else {
                    assert(self.0@[j].0 == note);
                    assert(old(self).0@[i].0 != note);
                }
            }
        }
        None
    }

    /// The decision behind playing a note: the direction from the source
    /// activator to the note (as an angle, in [`crate::math::MICRO_TURN`]ths
    /// of a turn) selects a degree of the scale; the previous player of that
    /// pitch, if any, is to be silenced and `new_player` sounds it now.
    /// Returns the pitch and the player to silence.
    pub fn handle_note_played<S: Scale>(&mut self, angle: u32, scale: &S, new_player: u64) -> (r: (
        Note,
        Option<u64>,
    ))
        requires
            player_keys_unique(old(self).0@),
            angle < crate::math::MICRO_TURN,
            scale.steps_spec().len() + 1 <= u8::MAX,
        ensures
            player_keys_unique(final(self).0@),
            r.0 == scale_note(
                scale.root_spec(),
                scale.steps_spec(),
                scale_degree(
                    crate::math::scale_position(
                        angle,
                        (scale.steps_spec().len() + 1) as u8,
                    ) as u8,
                    scale.steps_spec().len() as int,
                ),
            ),
            match r.1 {
                Some(prev) => exists|k: int|
                    0 <= k < old(self).0@.len() && old(self).0@[k] == (r.0, prev) && final(self).0@ == old(self).0@.update(k, (r.0, new_player)),
                None => (forall|k: int|
                    0 <= k < old(self).0@.len() ==> (#[trigger] old(self).0@[k]).0 != r.0) && final(self).0@ == old(self).0@.push((r.0, new_player)),
            },
    {
        let size = scale.size();
        let index = crate::math::calculate_scale_position_by_angle(angle, size);
        let played = scale.get(index);
        let stopped = self.note_on(played, new_player);
        (played, stopped)
    }
}

/// Repetition counter for the background strings: after each full play of a
/// clip the count advances, cycling through four repetitions.
pub struct BackgroundRepetition(pub u8);

impl BackgroundRepetition {
    pub fn new() -> (r: BackgroundRepetition)
        ensures
            r.0 == 0,
    {
        BackgroundRepetition(0)
    }

    pub fn get_repeat(&self) -> (r: u8)
        ensures
            r == self.0,
    {
        self.0
    }

    pub fn proceed(&mut self)
        requires
            old(self).0 < 4,
        ensures
            final(self).0 == (old(self).0 + 1) % 4,
            final(self).0 < 4,
    {
        self.0 = (self.0 + 1) % 4;
    }
}

/// The two background string clips.
#[derive(Clone, Copy, Debug, PartialEq, Eq, Structural)]
pub enum BackgroundClip {
    Strings1,
    Strings2,
}

/// Which background clip to start when the background timer elapses: the
/// fourth repetition of the cycle plays the second clip, every other one the
/// first.
pub fn background_clip(repeat: u8) -> (r: BackgroundClip)
    ensures
        (r is Strings2) == (repeat == 3),
{
    if repeat == 3 {
        BackgroundClip::Strings2
    } else {
        BackgroundClip::Strings1
    }
}

} // verus!
