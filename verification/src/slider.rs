use vstd::prelude::*;

use crate::upgrade::{can_run, spec_run, UpgradeAction, UpgradeType};

verus! {

/// Points to spend on sliders.
#[derive(Clone, Copy, Debug, PartialEq, Eq, Structural)]
pub struct SliderPoints {
    pub points: usize,
}

impl SliderPoints {
    pub fn new() -> (r: Self)
        ensures
            r.points == 0,
    {
        SliderPoints { points: 0 }
    }

    pub fn sub(&mut self, points: usize)
        requires
            old(self).points >= points,
        ensures
            final(self).points == old(self).points - points,
    {
        self.points = self.points - points;
    }

    pub fn add(&mut self, points: usize)
        requires
            old(self).points + points <= usize::MAX,
        ensures
            final(self).points == old(self).points + points,
    {
        self.points = self.points + points;
    }

    pub fn get(&self) -> (r: usize)
        ensures
            r == self.points,
    {
        self.points
    }
}

/// The setting one step up from `current`, unless at the top `max`.
pub open spec fn step_up(current: usize, max: usize) -> usize {
    if current == max { current } else { (current + 1) as usize }
}

/// The setting one step down from `current`, unless at 0.
pub open spec fn step_down(current: usize) -> usize {
    if current == 0 { 0 } else { (current - 1) as usize }
}

/// Below the top, a step down undoes a step up; above 0, a step up undoes
/// a step down; and neither leaves the range 0 to `max`.
pub proof fn lemma_steps_undo(current: usize, max: usize)
    requires
        current <= max,
    ensures
        current < max ==> step_down(step_up(current, max)) == current,
        current > 0 ==> step_up(step_down(current), max) == current,
        step_up(current, max) <= max,
        step_down(current) <= max,
{
}

/// A setting from 0 up to `max`, where `max` grows with the upgrade it
/// belongs to.
#[derive(Debug, PartialEq, Eq)]
pub struct Slider {
    pub current: usize,
    pub max: usize,
    pub text: String,
    pub t: UpgradeType,
}

impl Slider {
    /// A slider at 0 of 0.
    pub fn new(t: UpgradeType, text: String) -> (r: Self)
        ensures
            r.current == 0,
            r.max == 0,
            r.text@ == text@,
            r.t == t,
    {
        Slider { current: 0, max: 0, text, t }
    }

    /// One more step available.
    pub fn upgrade(&mut self)
        requires
            old(self).max < usize::MAX,
        ensures
            final(self).max == old(self).max + 1,
            final(self).current == old(self).current,
            final(self).t == old(self).t,
            final(self).text == old(self).text,
    {
        self.max = self.max + 1;
    }

    /// Whether the slider can be moved at all.
    pub fn enabled(&self) -> (r: bool)
        ensures
            r == (self.max > 0),
    {
        self.max > 0
    }

    /// One step up, unless at the top.
    pub fn increase(&mut self)
        requires
            old(self).current <= old(self).max,
        ensures
            final(self).current == step_up(old(self).current, old(self).max),
            final(self).current <= final(self).max,
            final(self).max == old(self).max,
            final(self).t == old(self).t,
            final(self).text == old(self).text,
    {
        if self.current == self.max {
            return;
        } else {
            self.current = self.current + 1;
        }
    }

    /// One step down, unless at 0.
    pub fn decrease(&mut self)
        ensures
            final(self).current == step_down(old(self).current),
            final(self).max == old(self).max,
            final(self).t == old(self).t,
            final(self).text == old(self).text,
    {
        if self.current == 0 {
            return;
        } else {
            self.current = self.current - 1;
        }
    }

    /// Makes the range follow the level of the slider's upgrade; tells
    /// whether the slider is shown (its range is not empty).
    pub fn sync(&mut self, level: usize) -> (r: bool)
        ensures
            final(self).max == level,
            final(self).current == old(self).current,
            final(self).t == old(self).t,
            final(self).text == old(self).text,
            r == (level != 0),
    {
        if level != self.max {
            self.max = level;
        }
        self.max != 0
    }
}

/// The sliders of a game, one per kind.
pub struct Sliders {
    pub sliders: Vec<Slider>,
}

impl Sliders {
    /// Each kind occurs once.
    pub open spec fn wf(&self) -> bool {
        forall|i: int, j: int| 0 <= i < self.sliders@.len() && 0 <= j < self.sliders@.len() && i != j
            ==> self.sliders@[i].t != self.sliders@[j].t
    }

    pub open spec fn has(&self, t: UpgradeType) -> bool {
        exists|i: int| 0 <= i < self.sliders@.len() && self.sliders@[i].t == t
    }

    pub open spec fn pos(&self, t: UpgradeType) -> int {
        choose|i: int| 0 <= i < self.sliders@.len() && self.sliders@[i].t == t
    }

    pub open spec fn at(&self, t: UpgradeType) -> Slider {
        self.sliders@[self.pos(t)]
    }

    /// The sliders of a new game: extend horizontally and vertically,
    /// automove, auto place.
    pub fn new() -> (r: Self)
        ensures
            r.wf(),
            r.sliders@.len() == 4,
            r.sliders@[0].t == UpgradeType::ExtendX && r.sliders@[0].text@ == "Extend X"@,
            r.sliders@[1].t == UpgradeType::ExtendY && r.sliders@[1].text@ == "Extend Y"@,
            r.sliders@[2].t == UpgradeType::AutoMove && r.sliders@[2].text@ == "Automove"@,
            r.sliders@[3].t == UpgradeType::RandomPlace && r.sliders@[3].text@ == "Auto place number"@,
            forall|i: int| 0 <= i < 4 ==> (#[trigger] r.sliders@[i]).current == 0 && r.sliders@[i].max == 0,
    {
        let mut v: Vec<Slider> = Vec::new();
        v.push(Slider::new(UpgradeType::ExtendX, "Extend X".to_owned()));
        v.push(Slider::new(UpgradeType::ExtendY, "Extend Y".to_owned()));
        v.push(Slider::new(UpgradeType::AutoMove, "Automove".to_owned()));
        v.push(Slider::new(UpgradeType::RandomPlace, "Auto place number".to_owned()));
        Sliders { sliders: v }
    }

    fn position(&self, t: UpgradeType) -> (r: usize)
        requires
            self.wf(),
            self.has(t),
        ensures
            r == self.pos(t),
            r < self.sliders@.len(),
    {
        let mut i: usize = 0;
        while i < self.sliders.len()
            invariant
                self.wf(),
                self.has(t),
                i <= self.sliders@.len(),
                forall|k: int| 0 <= k < i ==> self.sliders@[k].t != t,
            decreases self.sliders@.len() - i,
        {
            if self.sliders[i].t == t {
                proof {
                    let p = self.pos(t);
                    assert(self.sliders@[p].t == t);
                    assert(p == i);
                }
                return i;
            }
            i = i + 1;
        }
        proof {
            let p = self.pos(t);
            assert(self.sliders@[p].t == t);
        }
        0
    }

    /// The slider of kind `t`.
    pub fn get(&self, t: &UpgradeType) -> (r: &Slider)
        requires
            self.wf(),
            self.has(*t),
        ensures
            *r == self.at(*t),
    {
        let i = self.position(*t);
        &self.sliders[i]
    }

    /// What running the action of kind `t` at the slider's setting does.
    pub fn run(&self, t: &UpgradeType) -> (r: UpgradeAction)
        requires
            self.wf(),
            self.has(*t),
            can_run(*t, self.at(*t).current),
        ensures
            r == spec_run(*t, self.at(*t).current),
    {
        let level = self.get(t).current;
        t.run(level)
    }

    /// Moves the slider of kind `t` one step up or down, or follows the
    /// level of its upgrade (`Some(level)`); other sliders stay as they are.
    pub fn adjust(&mut self, t: UpgradeType, up: bool, level: Option<usize>)
        requires
            old(self).wf(),
            old(self).has(t),
            old(self).at(t).current <= old(self).at(t).max,
        ensures
            final(self).wf(),
            final(self).has(t),
            final(self).pos(t) == old(self).pos(t),
            final(self).sliders@.len() == old(self).sliders@.len(),
            forall|i: int| 0 <= i < old(self).sliders@.len() && i != old(self).pos(t)
                ==> final(self).sliders@[i] == old(self).sliders@[i],
            final(self).at(t).t == t,
            final(self).at(t).max == match level { Some(l) => l, None => old(self).at(t).max },
            final(self).at(t).current == match level {
                Some(_) => old(self).at(t).current,
                None => if up {
                    if old(self).at(t).current == old(self).at(t).max { old(self).at(t).current } else { (old(self).at(t).current + 1) as usize }
                } else {
                    if old(self).at(t).current == 0 { 0 } else { (old(self).at(t).current - 1) as usize }
                },
            },
    {
        let i = self.position(t);
        let mut s = self.sliders.remove(i);
        match level {
            Some(l) => {
                s.sync(l);
            },
            None => {
                if up {
                    s.increase();
                } else {
                    s.decrease();
                }
            },
        }
        let ghost old_seq = old(self).sliders@;
        self.sliders.insert(i, s);
        proof {
            assert(self.sliders@ =~= old_seq.update(i as int, s));
            assert(self.sliders@[i as int].t == t);
            let p = self.pos(t);
            assert(self.sliders@[p].t == t);
            assert(p == i);
        }
    }
}

/// The kinds of the sliders, in order, one shown per slider.
pub fn slide(sliders: &Sliders) -> (r: Vec<UpgradeType>)
    ensures
        r@.len() == sliders.sliders@.len(),
        forall|i: int| 0 <= i < r@.len() ==> #[trigger] r@[i] == sliders.sliders@[i].t,
{
    let mut out: Vec<UpgradeType> = Vec::new();
    let mut i: usize = 0;
    while i < sliders.sliders.len()
        invariant
            i <= sliders.sliders@.len(),
            out@.len() == i,
            forall|k: int| 0 <= k < i ==> #[trigger] out@[k] == sliders.sliders@[k].t,
        decreases sliders.sliders@.len() - i,
    {
        out.push(sliders.sliders[i].t);
        i = i + 1;
    }
    out
}

} // verus!
