//! The elaborated application model that the bootstrap sequence is computed from.
use vstd::prelude::*;
use vstd::string::StringExecFns;

verus! {

/// A software task and the capacity of its dispatch queue.
#[derive(Debug, Clone, PartialEq, Eq)]
pub struct SoftwareTask {
    pub name: String,
    pub capacity: u32,
}

/// A software task as data: its name and queue capacity.
pub struct SoftwareTaskModel {
    pub name: Seq<char>,
    pub capacity: u32,
}

impl View for SoftwareTask {
    type V = SoftwareTaskModel;

    open spec fn view(&self) -> SoftwareTaskModel {
        SoftwareTaskModel { name: self.name@, capacity: self.capacity }
    }
}

pub open spec fn bindings_view(s: Seq<Binding>) -> Seq<BindingModel> {
    s.map_values(|b: Binding| b@)
}

pub open spec fn software_tasks_view(s: Seq<SoftwareTask>) -> Seq<SoftwareTaskModel> {
    s.map_values(|t: SoftwareTask| t@)
}

pub open spec fn hardware_tasks_view(s: Seq<HardwareTask>) -> Seq<HardwareTaskModel> {
    s.map_values(|t: HardwareTask| t@)
}

pub open spec fn monotonics_view(s: Seq<MonotonicTask>) -> Seq<MonotonicTaskModel> {
    s.map_values(|m: MonotonicTask| m@)
}

/// A hardware task's binding to an interrupt or exception, optionally gated by
/// a configuration predicate.
#[derive(Debug, Clone, PartialEq, Eq)]
pub struct Binding {
    pub name: String,
    pub cfg: Option<String>,
}

/// A binding as data: the target's name and its predicate, if any.
pub struct BindingModel {
    pub name: Seq<char>,
    pub cfg: Option<Seq<char>>,
}

impl View for Binding {
    type V = BindingModel;

    open spec fn view(&self) -> BindingModel {
        BindingModel {
            name: self.name@,
            cfg: match self.cfg {
                Some(c) => Some(c@),
                None => None,
            },
        }
    }
}

/// A task run by hardware: one declared priority for all of its bindings.
#[derive(Debug, Clone, PartialEq, Eq)]
pub struct HardwareTask {
    pub name: String,
    pub priority: u32,
    pub binds: Vec<Binding>,
}

/// A hardware task as data.
pub struct HardwareTaskModel {
    pub name: Seq<char>,
    pub priority: u32,
    pub binds: Seq<BindingModel>,
}

impl View for HardwareTask {
    type V = HardwareTaskModel;

    open spec fn view(&self) -> HardwareTaskModel {
        HardwareTaskModel {
            name: self.name@,
            priority: self.priority,
            binds: bindings_view(self.binds@),
        }
    }
}

/// A timer-driven task, bound to one interrupt or to the system tick.
#[derive(Debug, Clone, PartialEq, Eq)]
pub struct MonotonicTask {
    pub name: String,
    pub priority: u32,
    pub binds: String,
    /// The timer type tolerates its interrupt being masked while its queue is empty.
    pub disable_interrupt_on_empty_queue: bool,
}

/// A timer-driven task as data.
pub struct MonotonicTaskModel {
    pub name: Seq<char>,
    pub priority: u32,
    pub binds: Seq<char>,
    pub disable_interrupt_on_empty_queue: bool,
}

impl View for MonotonicTask {
    type V = MonotonicTaskModel;

    open spec fn view(&self) -> MonotonicTaskModel {
        MonotonicTaskModel {
            name: self.name@,
            priority: self.priority,
            binds: self.binds@,
            disable_interrupt_on_empty_queue: self.disable_interrupt_on_empty_queue,
        }
    }
}

/// The whole application as the bootstrap stage sees it.
#[derive(Debug, Clone, PartialEq, Eq)]
pub struct App {
    pub software_tasks: Vec<SoftwareTask>,
    pub hardware_tasks: Vec<HardwareTask>,
    pub monotonics: Vec<MonotonicTask>,
    pub has_idle: bool,
}

/// An application as data: its tasks, in declaration order, and whether it has an idle task.
pub struct AppModel {
    pub software_tasks: Seq<SoftwareTaskModel>,
    pub hardware_tasks: Seq<HardwareTaskModel>,
    pub monotonics: Seq<MonotonicTaskModel>,
    pub has_idle: bool,
}

impl View for App {
    type V = AppModel;

    open spec fn view(&self) -> AppModel {
        AppModel {
            software_tasks: software_tasks_view(self.software_tasks@),
            hardware_tasks: hardware_tasks_view(self.hardware_tasks@),
            monotonics: monotonics_view(self.monotonics@),
            has_idle: self.has_idle,
        }
    }
}

/// An interrupt that an upstream analysis assigned a priority to (the
/// dispatchers of software tasks).
#[derive(Debug, Clone, PartialEq, Eq)]
pub struct DispatcherInterrupt {
    pub priority: u32,
    pub name: String,
}

/// A dispatcher interrupt as data.
pub struct DispatcherInterruptModel {
    pub priority: u32,
    pub name: Seq<char>,
}

impl View for DispatcherInterrupt {
    type V = DispatcherInterruptModel;

    open spec fn view(&self) -> DispatcherInterruptModel {
        DispatcherInterruptModel { priority: self.priority, name: self.name@ }
    }
}

/// The results of the upstream analysis that the bootstrap stage consumes.
#[derive(Debug, Clone, PartialEq, Eq)]
pub struct Analysis {
    pub interrupts: Vec<DispatcherInterrupt>,
}

impl View for Analysis {
    type V = Seq<DispatcherInterruptModel>;

    open spec fn view(&self) -> Seq<DispatcherInterruptModel> {
        dispatchers_view(self.interrupts@)
    }
}

pub open spec fn dispatchers_view(s: Seq<DispatcherInterrupt>) -> Seq<DispatcherInterruptModel> {
    s.map_values(|i: DispatcherInterrupt| i@)
}

/// The core exceptions whose priority is set through the exception controller.
pub open spec fn is_exception_name(n: Seq<char>) -> bool {
    n == "MemoryManagement"@ || n == "BusFault"@ || n == "UsageFault"@ || n == "SecureFault"@
        || n == "SVCall"@ || n == "DebugMonitor"@ || n == "PendSV"@ || n == "SysTick"@
}

/// The core system-tick exception.
pub open spec fn is_systick(n: Seq<char>) -> bool {
    n == "SysTick"@
}

fn same_as(name: &String, lit: &str) -> (r: bool)
    ensures
        r == (name@ == lit@),
{
    let other = <String as StringExecFns>::from_str(lit);
    *name == other
}

/// Whether a binding targets a core exception rather than a peripheral interrupt.
pub fn is_exception(name: &String) -> (r: bool)
    ensures
        r == is_exception_name(name@),
{
    same_as(name, "MemoryManagement") || same_as(name, "BusFault") || same_as(name, "UsageFault")
        || same_as(name, "SecureFault") || same_as(name, "SVCall") || same_as(name, "DebugMonitor")
        || same_as(name, "PendSV") || same_as(name, "SysTick")
}

/// Whether a timer binding names the core system-tick exception.
pub fn binds_systick(name: &String) -> (r: bool)
    ensures
        r == is_systick(name@),
{
    same_as(name, "SysTick")
}

} // verus!
