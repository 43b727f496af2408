//! Repetition between two points A and B.
//!
//! The positions are whatever the player measures time in; the player is told
//! the loop points through the command that each change returns.
use vstd::prelude::*;

verus! {

/// The loop points and whether the loop is on (both points set).
pub struct AbRepeat<P> {
    pub a: Option<P>,
    pub b: Option<P>,
    pub active: bool,
}

/// What the player must be told after a change of the loop.
#[derive(Debug, Clone, Copy, PartialEq)]
pub enum AbCommand<P> {
    /// Set `ab-loop-a` to this position.
    SetA(P),
    /// Set `ab-loop-b` to this position.
    SetB(P),
    /// Set both `ab-loop-a` and `ab-loop-b` to `no`.
    Clear,
}

impl<P: Copy> AbRepeat<P> {
    /// No points set.
    pub fn new() -> (r: Self)
        ensures
            r.a is None,
            r.b is None,
            !r.active,
    {
        AbRepeat { a: None, b: None, active: false }
    }

    /// Sets point A.
    pub fn set_a(&mut self, pos: P) -> (c: AbCommand<P>)
        ensures
            final(self).a == Some(pos),
            final(self).b == old(self).b,
            final(self).active == (old(self).b is Some),
            c == AbCommand::SetA(pos),
    {
        self.a = Some(pos);
        self.active = self.a.is_some() && self.b.is_some();
        AbCommand::SetA(pos)
    }

    /// Sets point B.
    pub fn set_b(&mut self, pos: P) -> (c: AbCommand<P>)
        ensures
            final(self).a == old(self).a,
            final(self).b == Some(pos),
            final(self).active == (old(self).a is Some),
            c == AbCommand::SetB(pos),
    {
        self.b = Some(pos);
        self.active = self.a.is_some() && self.b.is_some();
        AbCommand::SetB(pos)
    }

    /// Removes both points.
    pub fn clear(&mut self) -> (c: AbCommand<P>)
        ensures
            final(self).a is None,
            final(self).b is None,
            !final(self).active,
            c == AbCommand::<P>::Clear,
    {
        self.a = None;
        self.b = None;
        self.active = false;
        AbCommand::Clear
    }

    /// One key for all: sets A when it is unset, else B when it is unset, else clears both.
    pub fn cycle(&mut self, pos: P) -> (c: AbCommand<P>)
        ensures
            *final(self) == cycled(*old(self), pos),
            c == cycle_command(*old(self), pos),
    {
        match (self.a, self.b) {
            (None, _) => self.set_a(pos),
            (Some(_), None) => self.set_b(pos),
            _ => self.clear(),
        }
    }
}

/// The loop after a press of the A-B key at `pos`.
pub open spec fn cycled<P>(s: AbRepeat<P>, pos: P) -> AbRepeat<P> {
    match (s.a, s.b) {
        (None, _) => AbRepeat { a: Some(pos), b: s.b, active: s.b is Some },
        (Some(_), None) => AbRepeat { a: s.a, b: Some(pos), active: true },
        _ => AbRepeat { a: None, b: None, active: false },
    }
}

/// What the player is told on a press of the A-B key at `pos`.
pub open spec fn cycle_command<P>(s: AbRepeat<P>, pos: P) -> AbCommand<P> {
    match (s.a, s.b) {
        (None, _) => AbCommand::SetA(pos),
        (Some(_), None) => AbCommand::SetB(pos),
        _ => AbCommand::Clear,
    }
}

/// The loop is on exactly when both points are set.
pub open spec fn ab_consistent<P>(s: AbRepeat<P>) -> bool {
    s.active == (s.a is Some && s.b is Some)
}

/// Three presses of the A-B key from a cleared loop set A, then B, then clear
/// both again; and a press keeps the loop on exactly while both points are set.
pub proof fn ab_cycle_law<P>(s: AbRepeat<P>, x: P, y: P, z: P)
    ensures
        ({
            let cleared = AbRepeat::<P> { a: None, b: None, active: false };
            &&& cycled(cleared, x) == AbRepeat::<P> { a: Some(x), b: None, active: false }
            &&& cycled(cycled(cleared, x), y) == AbRepeat::<P> { a: Some(x), b: Some(y), active: true }
            &&& cycled(cycled(cycled(cleared, x), y), z) == cleared
        }),
        ab_consistent(s) ==> ab_consistent(cycled(s, x)),
{
}

} // verus!
