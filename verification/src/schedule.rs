//! The step counter of a learning-rate schedule with warm-up and decay.
use vstd::prelude::*;

verus! {

/// Where one step of a schedule with warm-up and decay falls.
#[derive(Clone, Copy, Debug, PartialEq, Eq, Structural)]
pub enum SchedulePhase {
    /// The schedule has run out: the final rate holds.
    Finished,
    /// Warm-up: the rate is the share `step / of` of the starting rate.
    Warmup { step: usize, of: usize },
    /// Decay: `elapsed` of the `span` steps between warm-up and end lie
    /// behind.
    Decay { elapsed: usize, span: usize },
}

/// The step counter of a schedule that warms up for `num_warmup_steps` steps
/// and then decays until `total_steps` steps are reached.
#[derive(Clone, Copy, Debug, PartialEq, Eq, Structural)]
pub struct ScheduleSteps {
    pub num_warmup_steps: usize,
    pub total_steps: usize,
    pub current_step: usize,
}

impl ScheduleSteps {
    /// The phase that the current step falls into. The end of the schedule
    /// takes precedence over warm-up.
    pub open spec fn phase(self) -> SchedulePhase {
        if self.current_step >= self.total_steps {
            SchedulePhase::Finished
        } else if self.current_step <= self.num_warmup_steps {
            SchedulePhase::Warmup { step: self.current_step, of: self.num_warmup_steps }
        } else {
            SchedulePhase::Decay {
                elapsed: (self.current_step - self.num_warmup_steps) as usize,
                span: (self.total_steps - self.num_warmup_steps) as usize,
            }
        }
    }

    /// The counter after one step: it moves on by one until the schedule has
    /// run out, and stays from then on.
    pub open spec fn after_step(self) -> ScheduleSteps {
        if self.current_step >= self.total_steps {
            self
        } else {
            ScheduleSteps { current_step: (self.current_step + 1) as usize, ..self }
        }
    }

    /// A counter at its first step.
    pub fn new(total_steps: usize, num_warmup_steps: usize) -> (steps: ScheduleSteps)
        ensures
            steps == (ScheduleSteps { num_warmup_steps, total_steps, current_step: 1 }),
    {
        ScheduleSteps { num_warmup_steps, total_steps, current_step: 1 }
    }

    /// Takes one step: tells the phase of the current step and moves the
    /// counter on.
    pub fn step(&mut self) -> (phase: SchedulePhase)
        ensures
            phase == old(self).phase(),
            *final(self) == old(self).after_step(),
    {
        if self.current_step >= self.total_steps {
            return SchedulePhase::Finished;
        }
        let phase = if self.current_step <= self.num_warmup_steps {
            SchedulePhase::Warmup { step: self.current_step, of: self.num_warmup_steps }
        } else {
            SchedulePhase::Decay {
                elapsed: self.current_step - self.num_warmup_steps,
                span: self.total_steps - self.num_warmup_steps,
            }
        };
        self.current_step = self.current_step + 1;
        phase
    }
}

/// In warm-up the step never exceeds the number of warm-up steps; in decay
/// some but not all of the decay steps lie behind. A counter that has not
/// passed the end does not pass it by a step, and a finished one stays as it
/// is.
pub proof fn lemma_schedule_phases(steps: ScheduleSteps)
    ensures
        steps.phase() matches SchedulePhase::Warmup { step, of } ==> step <= of && step
            < steps.total_steps,
        steps.phase() matches SchedulePhase::Decay { elapsed, span } ==> 0 < elapsed < span,
        steps.current_step <= steps.total_steps ==> steps.after_step().current_step
            <= steps.total_steps,
        steps.phase() is Finished ==> steps.after_step() == steps,
        !(steps.phase() is Finished) ==> steps.after_step().current_step == steps.current_step
            + 1,
{
}

} // verus!
