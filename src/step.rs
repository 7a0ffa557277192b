//! The steps that make up a bootstrap sequence.
use vstd::prelude::*;

verus! {

/// A register write that may stand inside a conditional step.
#[derive(Debug, Clone, PartialEq, Eq)]
pub enum GuardedStep {
    SetInterruptPriority { name: String, hw_priority: u8 },
    Unmask { name: String },
    SetExceptionPriority { name: String, hw_priority: u8 },
}

/// One step of the bootstrap sequence, to be executed in order at startup.
#[derive(Debug, Clone, PartialEq, Eq)]
pub enum Step {
    /// Mask all maskable interrupts.
    DisableInterrupts,
    /// Push each slot index, in order, into the task's free-slot queue.
    SeedQueue { task: String, slots: Vec<u32> },
    /// Take the peripheral-access singleton for the rest of the program.
    AcquirePeripherals,
    /// The priority below was checked to be representable.
    AssertPriority { priority: u32 },
    /// Program an interrupt's priority in the interrupt controller.
    SetInterruptPriority { name: String, hw_priority: u8 },
    /// Unmask an interrupt in the interrupt controller.
    Unmask { name: String },
    /// Run the inner steps only in builds where the predicate holds.
    Conditional { predicate: String, steps: Vec<GuardedStep> },
    /// Program a core exception's priority.
    SetExceptionPriority { name: String, hw_priority: u8 },
    /// Enable a timer's interrupt for good.
    EnableTimerInterrupt { name: String },
    /// Sleep automatically on return from every interrupt handler.
    SleepOnExit,
}

/// What a step means, with names as character sequences.
pub enum StepModel {
    DisableInterrupts,
    SeedQueue { task: Seq<char>, slots: Seq<u32> },
    AcquirePeripherals,
    AssertPriority { priority: u32 },
    SetInterruptPriority { name: Seq<char>, hw_priority: u8 },
    Unmask { name: Seq<char> },
    Conditional { predicate: Seq<char>, steps: Seq<StepModel> },
    SetExceptionPriority { name: Seq<char>, hw_priority: u8 },
    EnableTimerInterrupt { name: Seq<char> },
    SleepOnExit,
}

impl View for GuardedStep {
    type V = StepModel;

    open spec fn view(&self) -> StepModel {
        match self {
            GuardedStep::SetInterruptPriority { name, hw_priority } => StepModel::SetInterruptPriority {
                name: name@,
                hw_priority: *hw_priority,
            },
            GuardedStep::Unmask { name } => StepModel::Unmask { name: name@ },
            GuardedStep::SetExceptionPriority { name, hw_priority } => StepModel::SetExceptionPriority {
                name: name@,
                hw_priority: *hw_priority,
            },
        }
    }
}

impl View for Step {
    type V = StepModel;

    open spec fn view(&self) -> StepModel {
        match self {
            Step::DisableInterrupts => StepModel::DisableInterrupts,
            Step::SeedQueue { task, slots } => StepModel::SeedQueue { task: task@, slots: slots@ },
            Step::AcquirePeripherals => StepModel::AcquirePeripherals,
            Step::AssertPriority { priority } => StepModel::AssertPriority { priority: *priority },
            Step::SetInterruptPriority { name, hw_priority } => StepModel::SetInterruptPriority {
                name: name@,
                hw_priority: *hw_priority,
            },
            Step::Unmask { name } => StepModel::Unmask { name: name@ },
            Step::Conditional { predicate, steps } => StepModel::Conditional {
                predicate: predicate@,
                steps: steps@.map_values(|g: GuardedStep| g@),
            },
            Step::SetExceptionPriority { name, hw_priority } => StepModel::SetExceptionPriority {
                name: name@,
                hw_priority: *hw_priority,
            },
            Step::EnableTimerInterrupt { name } => StepModel::EnableTimerInterrupt { name: name@ },
            Step::SleepOnExit => StepModel::SleepOnExit,
        }
    }
}

/// The meaning of a list of steps.
pub open spec fn steps_view(s: Seq<Step>) -> Seq<StepModel> {
    s.map_values(|x: Step| x@)
}

} // verus!
