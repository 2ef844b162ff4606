use vstd::prelude::*;

verus! {

/// Move the head of drive `drive_index` to quarter-track `phase_160`.
#[derive(Clone, Copy, Debug, PartialEq, Eq, Structural)]
pub struct UpdatePhaseAction {
    /// 0 or 1
    pub drive_index: usize,
    pub phase_160: usize,
}

/// Stop the motor of drive `drive_index`.
#[derive(Clone, Copy, Debug, PartialEq, Eq, Structural)]
pub struct MotorOffAction {
    /// 0 or 1
    pub drive_index: usize,
}

/// An action run after some cycles.
#[derive(Clone, Copy, Debug, PartialEq, Eq, Structural)]
pub enum CycleAction {
    UpdatePhase(UpdatePhaseAction),
    MotorOff(MotorOffAction),
}

/// An action with the cycles left before it runs.
#[derive(Clone, Copy, Debug, PartialEq, Eq, Structural)]
pub struct ActionWrapper {
    pub wait: u64,
    pub has_run: bool,
    pub action: CycleAction,
}

/// The actions waiting to be run, in the order they were added.
pub struct Actions {
    pub actions: Vec<ActionWrapper>,
}

impl Actions {
    pub fn new() -> (r: Actions)
        ensures
            r.actions@.len() == 0,
    {
        Actions { actions: Vec::new() }
    }

    /// Run `action` after `wait` cycles.
    pub fn add_action(&mut self, wait: u64, action: CycleAction)
        ensures
            final(self).actions@ == old(self).actions@.push(
                ActionWrapper { wait, has_run: false, action },
            ),
    {
        self.actions.push(ActionWrapper { wait, has_run: false, action });
    }

    /// Mark every motor-off action as run, so that it never runs.
    pub fn remove_motor_off_actions(&mut self)
        ensures
            final(self).actions@.len() == old(self).actions@.len(),
            forall|k: int|
                0 <= k < old(self).actions@.len() ==> #[trigger] final(self).actions@[k] == (
                if old(self).actions@[k].action is MotorOff {
                    ActionWrapper { has_run: true, ..old(self).actions@[k] }
                } else {
                    old(self).actions@[k]
                }),
    {
        let mut k: usize = 0;
        while k < self.actions.len()
            invariant
                k <= self.actions@.len(),
                self.actions@.len() == old(self).actions@.len(),
                forall|q: int|
                    0 <= q < k ==> #[trigger] self.actions@[q] == (if old(self).actions@[q].action is MotorOff {
                        ActionWrapper { has_run: true, ..old(self).actions@[q] }
                    } else {
                        old(self).actions@[q]
                    }),
                forall|q: int| k <= q < self.actions@.len() ==> #[trigger] self.actions@[q] == old(self).actions@[q],
            decreases self.actions@.len() - k,
        {
            let a = self.actions[k];
            match a.action {
                CycleAction::MotorOff(_) => {
                    self.actions.set(k, ActionWrapper { has_run: true, ..a });
                },
                _ => {},
            }
            k += 1;
        }
    }
}

} // verus!
