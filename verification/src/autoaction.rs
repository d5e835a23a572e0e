use vstd::prelude::*;

use crate::slider::Slider;
use crate::upgrade::UpgradeType;

verus! {

/// An action that runs by itself every `max` milliseconds while active,
/// counting down in steps of 100 ms.
#[derive(Clone, Copy, Debug, PartialEq, Eq, Structural)]
pub struct AutoAction {
    pub current: usize,
    pub max: usize,
    pub active: bool,
    pub initial: usize,
    pub t: UpgradeType,
}

impl AutoAction {
    /// An action of kind `t` every `time` ms, counting from the start.
    pub fn new(t: UpgradeType, time: usize, active: bool) -> (r: Self)
        ensures
            r == (AutoAction { current: time, max: time, active, initial: time, t }),
    {
        let mut me = AutoAction { max: time, current: time, active, t, initial: time };
        me.set_callback(0);
        me
    }

    /// Sets the period to `time` ms.
    pub fn upgrade(&mut self, time: usize, level: usize)
        ensures
            *final(self) == (AutoAction { max: time, ..*old(self) }),
    {
        self.max = time;
        self.set_callback(level);
    }

    /// Starts running.
    pub fn enable(&mut self, level: usize)
        ensures
            *final(self) == (AutoAction { active: true, ..*old(self) }),
    {
        self.active = true;
        self.set_callback(level);
    }

    /// Stops running.
    pub fn disable(&mut self)
        ensures
            *final(self) == (AutoAction { active: false, ..*old(self) }),
    {
        self.active = false;
    }

    /// Changes nothing: the countdown of an active action runs in `tick`,
    /// so there is no timer to arm here.
    fn set_callback(&mut self, level: usize)
        ensures
            *final(self) == *old(self),
    {
        if !self.active {
            return;
        }
    }

    /// One step of the countdown, every 100 ms: when fewer than 100 ms are
    /// left the action fires (returns `true`) and the countdown restarts at
    /// the period; an inactive action does nothing.
    pub fn tick(&mut self) -> (fire: bool)
        ensures
            fire == (old(self).active && old(self).current <= 100),
            final(self).current == if !old(self).active {
                old(self).current
            } else if old(self).current <= 100 {
                old(self).max
            } else {
                (old(self).current - 100) as usize
            },
            final(self).max == old(self).max,
            final(self).active == old(self).active,
            final(self).initial == old(self).initial,
            final(self).t == old(self).t,
    {
        if !self.active {
            return false;
        }
        if self.current <= 100 {
            self.current = self.max;
            true
        } else {
            self.current = self.current - 100;
            false
        }
    }

    /// Follows the slider that controls the action: nothing while the
    /// slider is disabled; at 0 the action stops; otherwise it runs with
    /// period `scaled`, which is `⌊initial / 1.2^current⌋` computed by the
    /// caller.
    pub fn follow(&mut self, slider: &Slider, scaled: usize)
        ensures
            slider.max == 0 ==> *final(self) == *old(self),
            slider.max > 0 && slider.current == 0 ==> *final(self) == (AutoAction { active: false, ..*old(self) }),
            slider.max > 0 && slider.current != 0 ==> *final(self) == (AutoAction { active: true, max: scaled, ..*old(self) }),
    {
        if !slider.enabled() {
            return;
        }
        if slider.current == 0 {
            self.disable();
        } else {
            self.active = true;
            self.max = scaled;
            self.set_callback(slider.current);
        }
    }
}

/// The automatic actions of a game, one per kind.
pub struct AutoActions {
    pub actions: Vec<AutoAction>,
}

impl AutoActions {
    pub open spec fn wf(&self) -> bool {
        forall|i: int, j: int| 0 <= i < self.actions@.len() && 0 <= j < self.actions@.len() && i != j
            ==> self.actions@[i].t != self.actions@[j].t
    }

    pub open spec fn has(&self, t: UpgradeType) -> bool {
        exists|i: int| 0 <= i < self.actions@.len() && self.actions@[i].t == t
    }

    pub open spec fn pos(&self, t: UpgradeType) -> int {
        choose|i: int| 0 <= i < self.actions@.len() && self.actions@[i].t == t
    }

    pub open spec fn at(&self, t: UpgradeType) -> AutoAction {
        self.actions@[self.pos(t)]
    }

    fn position(&self, t: UpgradeType) -> (r: usize)
        requires
            self.wf(),
            self.has(t),
        ensures
            r == self.pos(t),
            r < self.actions@.len(),
    {
        let mut i: usize = 0;
        while i < self.actions.len()
            invariant
                self.wf(),
                self.has(t),
                i <= self.actions@.len(),
                forall|k: int| 0 <= k < i ==> self.actions@[k].t != t,
            decreases self.actions@.len() - i,
        {
            if self.actions[i].t == t {
                proof {
                    let p = self.pos(t);
                    assert(self.actions@[p].t == t);
                    assert(p == i);
                }
                return i;
            }
            i = i + 1;
        }
        proof {
            let p = self.pos(t);
            assert(self.actions@[p].t == t);
        }
        0
    }

    /// The action of kind `t`.
    pub fn get(&self, t: &UpgradeType) -> (r: AutoAction)
        requires
            self.wf(),
            self.has(*t),
        ensures
            r == self.at(*t),
    {
        let i = self.position(*t);
        self.actions[i]
    }

    /// Replaces the action of kind `a.t`.
    pub fn set(&mut self, a: AutoAction)
        requires
            old(self).wf(),
            old(self).has(a.t),
        ensures
            final(self).wf(),
            final(self).actions@ == old(self).actions@.update(old(self).pos(a.t), a),
    {
        let i = self.position(a.t);
        self.actions.set(i, a);
    }
}

impl Default for AutoActions {
    /// Automove and random placement every second, shuffling and saving
    /// every ten seconds, all inactive.
    fn default() -> (r: Self)
        ensures
            r.wf(),
            r.actions@ == seq![
                AutoAction { current: 1000, max: 1000, active: false, initial: 1000, t: UpgradeType::AutoMove },
                AutoAction { current: 1000, max: 1000, active: false, initial: 1000, t: UpgradeType::RandomPlace },
                AutoAction { current: 10000, max: 10000, active: false, initial: 10000, t: UpgradeType::AutoShuffle },
                AutoAction { current: 10000, max: 10000, active: false, initial: 10000, t: UpgradeType::AutoSave },
            ],
    {
        let mut v: Vec<AutoAction> = Vec::new();
        v.push(AutoAction::new(UpgradeType::AutoMove, 1000, false));
        v.push(AutoAction::new(UpgradeType::RandomPlace, 1000, false));
        v.push(AutoAction::new(UpgradeType::AutoShuffle, 10000, false));
        v.push(AutoAction::new(UpgradeType::AutoSave, 10000, false));
        let r = AutoActions { actions: v };
        assert(r.actions@ =~= seq![
            AutoAction { current: 1000, max: 1000, active: false, initial: 1000, t: UpgradeType::AutoMove },
            AutoAction { current: 1000, max: 1000, active: false, initial: 1000, t: UpgradeType::RandomPlace },
            AutoAction { current: 10000, max: 10000, active: false, initial: 10000, t: UpgradeType::AutoShuffle },
            AutoAction { current: 10000, max: 10000, active: false, initial: 10000, t: UpgradeType::AutoSave },
        ]);
        r
    }
}

/// The kinds of the automatic actions, one countdown shown per action.
pub fn show_auto_actions(actions: &AutoActions) -> (r: Vec<UpgradeType>)
    ensures
        r@.len() == actions.actions@.len(),
        forall|i: int| 0 <= i < r@.len() ==> #[trigger] r@[i] == actions.actions@[i].t,
{
    let mut out: Vec<UpgradeType> = Vec::new();
    let mut i: usize = 0;
    while i < actions.actions.len()
        invariant
            i <= actions.actions@.len(),
            out@.len() == i,
            forall|k: int| 0 <= k < i ==> #[trigger] out@[k] == actions.actions@[k].t,
        decreases actions.actions@.len() - i,
    {
        out.push(actions.actions[i].t);
        i = i + 1;
    }
    out
}

} // verus!
