//! Computes the bootstrap sequence: the steps that bring the interrupt and
//! exception controllers into a state consistent with the declared priorities.
use crate::model::{
    is_exception, is_exception_name, is_systick, binds_systick, software_tasks_view, hardware_tasks_view,
    monotonics_view, bindings_view, dispatchers_view, App, AppModel, Analysis, BindingModel,
    DispatcherInterrupt, DispatcherInterruptModel, HardwareTask, HardwareTaskModel, MonotonicTask,
    MonotonicTaskModel, SoftwareTask, SoftwareTaskModel,
};
use crate::priority::{encode, hw_encoding, representable, BootstrapError};
use crate::step::{steps_view, GuardedStep, Step, StepModel};
use vstd::prelude::*;

verus! {

// ---------------------------------------------------------------------------
// What the sequence is
// ---------------------------------------------------------------------------

/// A (priority, name, predicate) triple to be programmed.
pub struct EntryModel {
    pub priority: u32,
    pub name: Seq<char>,
    pub cfg: Option<Seq<char>>,
}

/// The slot indices `0, 1, ..., c - 1`.
pub open spec fn slot_indices(c: u32) -> Seq<u32> {
    Seq::new(c as nat, |i: int| i as u32)
}

pub open spec fn seed_step(t: SoftwareTaskModel) -> StepModel {
    StepModel::SeedQueue { task: t.name, slots: slot_indices(t.capacity) }
}

pub open spec fn seed_steps(ts: Seq<SoftwareTaskModel>) -> Seq<StepModel> {
    ts.map_values(|t: SoftwareTaskModel| seed_step(t))
}

/// The interrupts that the analysis assigned a priority to, ungated.
pub open spec fn dispatcher_entries(d: Seq<DispatcherInterruptModel>) -> Seq<EntryModel> {
    d.map_values(
        |i: DispatcherInterruptModel| EntryModel { priority: i.priority, name: i.name, cfg: None },
    )
}

/// The bindings that target exceptions (`exceptions`) or interrupts (`!exceptions`).
pub open spec fn binding_entries(
    priority: u32,
    binds: Seq<BindingModel>,
    exceptions: bool,
) -> Seq<EntryModel>
    decreases binds.len(),
{
    if binds.len() == 0 {
        seq![]
    } else {
        let prev = binding_entries(priority, binds.drop_last(), exceptions);
        let b = binds.last();
        if is_exception_name(b.name) == exceptions {
            prev.push(EntryModel { priority, name: b.name, cfg: b.cfg })
        } else {
            prev
        }
    }
}

/// The selected bindings of all hardware tasks, task by task.
pub open spec fn task_entries(tasks: Seq<HardwareTaskModel>, exceptions: bool) -> Seq<EntryModel>
    decreases tasks.len(),
{
    if tasks.len() == 0 {
        seq![]
    } else {
        task_entries(tasks.drop_last(), exceptions) + binding_entries(
            tasks.last().priority,
            tasks.last().binds,
            exceptions,
        )
    }
}

/// Everything programmed through the interrupt controller but the timers.
pub open spec fn interrupt_entries(app: AppModel, analysis: Seq<DispatcherInterruptModel>) -> Seq<
    EntryModel,
> {
    dispatcher_entries(analysis) + task_entries(app.hardware_tasks, false)
}

/// Everything programmed through the exception controller but the timers.
pub open spec fn exception_entries(app: AppModel) -> Seq<EntryModel> {
    task_entries(app.hardware_tasks, true)
}

/// The steps wrapped in a conditional step when a predicate is given.
pub open spec fn guarded(cfg: Option<Seq<char>>, steps: Seq<StepModel>) -> Seq<StepModel> {
    match cfg {
        None => steps,
        Some(c) => seq![StepModel::Conditional { predicate: c, steps }],
    }
}

pub open spec fn hw(p: u32, bits: nat) -> u8 {
    hw_encoding(p as int, bits) as u8
}

/// Check, set priority, unmask (gated), then unmask once more.
pub open spec fn interrupt_block(e: EntryModel, bits: nat) -> Seq<StepModel> {
    seq![StepModel::AssertPriority { priority: e.priority }] + guarded(
        e.cfg,
        seq![
            StepModel::SetInterruptPriority { name: e.name, hw_priority: hw(e.priority, bits) },
            StepModel::Unmask { name: e.name },
        ],
    ) + seq![StepModel::Unmask { name: e.name }]
}

/// Check, then set the exception's priority (gated).
pub open spec fn exception_block(e: EntryModel, bits: nat) -> Seq<StepModel> {
    seq![StepModel::AssertPriority { priority: e.priority }] + guarded(
        e.cfg,
        seq![StepModel::SetExceptionPriority { name: e.name, hw_priority: hw(e.priority, bits) }],
    )
}

/// Check, set the timer's priority, and enable it for good where its type
/// cannot have it masked while its queue is empty.
pub open spec fn timer_block(m: MonotonicTaskModel, bits: nat) -> Seq<StepModel> {
    seq![
        StepModel::AssertPriority { priority: m.priority },
        if is_systick(m.binds) {
            StepModel::SetExceptionPriority { name: m.binds, hw_priority: hw(m.priority, bits) }
        } else {
            StepModel::SetInterruptPriority { name: m.binds, hw_priority: hw(m.priority, bits) }
        },
    ] + if m.disable_interrupt_on_empty_queue {
        seq![]
    } else {
        seq![StepModel::EnableTimerInterrupt { name: m.binds }]
    }
}

pub open spec fn interrupt_blocks(es: Seq<EntryModel>, bits: nat) -> Seq<StepModel>
    decreases es.len(),
{
    if es.len() == 0 {
        seq![]
    } else {
        interrupt_blocks(es.drop_last(), bits) + interrupt_block(es.last(), bits)
    }
}

pub open spec fn exception_blocks(es: Seq<EntryModel>, bits: nat) -> Seq<StepModel>
    decreases es.len(),
{
    if es.len() == 0 {
        seq![]
    } else {
        exception_blocks(es.drop_last(), bits) + exception_block(es.last(), bits)
    }
}

pub open spec fn timer_blocks(ms: Seq<MonotonicTaskModel>, bits: nat) -> Seq<StepModel>
    decreases ms.len(),
{
    if ms.len() == 0 {
        seq![]
    } else {
        timer_blocks(ms.drop_last(), bits) + timer_block(ms.last(), bits)
    }
}

pub open spec fn idle_steps(app: AppModel) -> Seq<StepModel> {
    if app.has_idle {
        seq![]
    } else {
        seq![StepModel::SleepOnExit]
    }
}

/// The whole bootstrap sequence, for an application whose priorities are all
/// representable.
pub open spec fn bootstrap_steps(
    app: AppModel,
    analysis: Seq<DispatcherInterruptModel>,
    bits: nat,
) -> Seq<StepModel> {
    seq![StepModel::DisableInterrupts] + seed_steps(app.software_tasks) + seq![
        StepModel::AcquirePeripherals,
    ] + interrupt_blocks(interrupt_entries(app, analysis), bits) + exception_blocks(
        exception_entries(app),
        bits,
    ) + timer_blocks(app.monotonics, bits) + idle_steps(app)
}

pub open spec fn entry_priorities(es: Seq<EntryModel>) -> Seq<u32> {
    es.map_values(|e: EntryModel| e.priority)
}

pub open spec fn timer_priorities(ms: Seq<MonotonicTaskModel>) -> Seq<u32> {
    ms.map_values(|m: MonotonicTaskModel| m.priority)
}

/// Every priority checked, in the order in which they are checked.
pub open spec fn checked_priorities(app: AppModel, analysis: Seq<DispatcherInterruptModel>) -> Seq<
    u32,
> {
    entry_priorities(interrupt_entries(app, analysis)) + entry_priorities(exception_entries(app))
        + timer_priorities(app.monotonics)
}

pub open spec fn all_representable(ps: Seq<u32>, bits: nat) -> bool {
    forall|i: int| 0 <= i < ps.len() ==> representable(#[trigger] ps[i] as int, bits)
}

/// `e` reports the first priority of `ps` that is not representable.
pub open spec fn rejects_first(ps: Seq<u32>, bits: nat, e: BootstrapError) -> bool {
    exists|k: int|
        0 <= k < ps.len() && !representable(ps[k] as int, bits) && (forall|j: int|
            0 <= j < k ==> representable(#[trigger] ps[j] as int, bits)) && e
            == (BootstrapError::UnrepresentablePriority { priority: ps[k] })
}

// ---------------------------------------------------------------------------
// Building it
// ---------------------------------------------------------------------------

/// The seeding step of one software task: slots `0 .. capacity`, ascending.
pub fn seed_queue(task: &SoftwareTask) -> (r: Step)
    ensures
        r@ == seed_step(task@),
{
    let mut slots: Vec<u32> = Vec::new();
    let mut k: u32 = 0;
    while k < task.capacity
        invariant
            k <= task.capacity,
            slots@.len() == k,
            forall|i: int| 0 <= i < k ==> slots@[i] == i,
        decreases task.capacity - k,
    {
        slots.push(k);
        k = k + 1;
    }
    assert(slots@ =~= slot_indices(task.capacity));
    Step::SeedQueue { task: task.name.clone(), slots }
}

fn seed_queues(tasks: &Vec<SoftwareTask>, out: &mut Vec<Step>)
    ensures
        steps_view(final(out)@) == steps_view(old(out)@) + seed_steps(
            software_tasks_view(tasks@),
        ),
{
    let ghost start = steps_view(out@);
    let mut i: usize = 0;
    while i < tasks.len()
        invariant
            i <= tasks@.len(),
            steps_view(out@) =~= start + seed_steps(software_tasks_view(tasks@.take(i as int))),
        decreases tasks@.len() - i,
    {
        let s = seed_queue(&tasks[i]);
        let ghost before = out@;
        out.push(s);
        proof {
            let tv = software_tasks_view(tasks@.take(i as int));
            assert(software_tasks_view(tasks@.take(i + 1)) =~= tv.push(tasks@[i as int]@));
            assert(seed_steps(tv.push(tasks@[i as int]@)) =~= seed_steps(tv).push(
                seed_step(tasks@[i as int]@),
            ));
            assert(steps_view(out@) =~= steps_view(before).push(s@));
        }
        i = i + 1;
    }
    assert(tasks@.take(i as int) =~= tasks@);
}

/// A (priority, name, predicate) triple to be programmed.
struct Entry {
    priority: u32,
    name: String,
    cfg: Option<String>,
}

impl View for Entry {
    type V = EntryModel;

    closed spec fn view(&self) -> EntryModel {
        EntryModel {
            priority: self.priority,
            name: self.name@,
            cfg: match self.cfg {
                Some(c) => Some(c@),
                None => None,
            },
        }
    }
}

spec fn entries_view(s: Seq<Entry>) -> Seq<EntryModel> {
    s.map_values(|e: Entry| e@)
}

fn clone_cfg(cfg: &Option<String>) -> (r: Option<String>)
    ensures
        r == *cfg,
{
    match cfg {
        Some(c) => Some(c.clone()),
        None => None,
    }
}

fn collect_dispatchers(d: &Vec<DispatcherInterrupt>, out: &mut Vec<Entry>)
    ensures
        entries_view(final(out)@) == entries_view(old(out)@) + dispatcher_entries(
            dispatchers_view(d@),
        ),
{
    let ghost start = entries_view(out@);
    let ghost dv = dispatchers_view(d@);
    let mut i: usize = 0;
    while i < d.len()
        invariant
            i <= d@.len(),
            dv == dispatchers_view(d@),
            entries_view(out@) =~= start + dispatcher_entries(dv.take(i as int)),
        decreases d@.len() - i,
    {
        let e = Entry { priority: d[i].priority, name: d[i].name.clone(), cfg: None };
        let ghost before = out@;
        out.push(e);
        proof {
            assert(dispatcher_entries(dv.take(i + 1)) =~= dispatcher_entries(dv.take(i as int)).push(
                e@,
            ));
            assert(entries_view(out@) =~= entries_view(before).push(e@));
        }
        i = i + 1;
    }
    assert(dv.take(i as int) =~= dv);
}

fn collect_bindings(tasks: &Vec<HardwareTask>, exceptions: bool, out: &mut Vec<Entry>)
    ensures
        entries_view(final(out)@) == entries_view(old(out)@) + task_entries(
            hardware_tasks_view(tasks@),
            exceptions,
        ),
{
    let ghost start = entries_view(out@);
    let ghost tv = hardware_tasks_view(tasks@);
    let mut i: usize = 0;
    while i < tasks.len()
        invariant
            i <= tasks@.len(),
            tv == hardware_tasks_view(tasks@),
            entries_view(out@) =~= start + task_entries(tv.take(i as int), exceptions),
        decreases tasks@.len() - i,
    {
        let task = &tasks[i];
        let ghost bv = bindings_view(task.binds@);
        let ghost mid = entries_view(out@);
        let mut j: usize = 0;
        while j < task.binds.len()
            invariant
                j <= task.binds@.len(),
                bv == bindings_view(task.binds@),
                entries_view(out@) =~= mid + binding_entries(
                    task.priority,
                    bv.take(j as int),
                    exceptions,
                ),
            decreases task.binds@.len() - j,
        {
            let b = &task.binds[j];
            assert(bv.take(j + 1).drop_last() =~= bv.take(j as int));
            if is_exception(&b.name) == exceptions {
                let e = Entry { priority: task.priority, name: b.name.clone(), cfg: clone_cfg(&b.cfg) };
                let ghost before = out@;
                out.push(e);
                assert(entries_view(out@) =~= entries_view(before).push(e@));
            }
            j = j + 1;
        }
        proof {
            assert(bv.take(j as int) =~= bv);
            assert(tv.take(i + 1).drop_last() =~= tv.take(i as int));
            assert(tv[i as int] == task@);
        }
        i = i + 1;
    }
    assert(tv.take(i as int) =~= tv);
}

fn emit_interrupt(e: &Entry, bits: u32, out: &mut Vec<Step>) -> (r: Result<(), BootstrapError>)
    requires
        bits <= 8,
    ensures
        r is Ok <==> representable(e.priority as int, bits as nat),
        r is Ok ==> steps_view(final(out)@) == steps_view(old(out)@) + interrupt_block(
            e@,
            bits as nat,
        ),
        r matches Err(x) ==> x == (BootstrapError::UnrepresentablePriority { priority: e.priority }),
{
    let h = match encode(e.priority, bits) {
        Ok(h) => h,
        Err(x) => {
            return Err(x);
        },
    };
    let ghost start = out@;
    out.push(Step::AssertPriority { priority: e.priority });
    match &e.cfg {
        None => {
            out.push(Step::SetInterruptPriority { name: e.name.clone(), hw_priority: h });
            out.push(Step::Unmask { name: e.name.clone() });
        },
        Some(c) => {
            let mut inner: Vec<GuardedStep> = Vec::new();
            inner.push(GuardedStep::SetInterruptPriority { name: e.name.clone(), hw_priority: h });
            inner.push(GuardedStep::Unmask { name: e.name.clone() });
            let ghost iv = inner@;
            assert(iv.map_values(|g: GuardedStep| g@) =~= seq![
                StepModel::SetInterruptPriority { name: e.name@, hw_priority: h },
                StepModel::Unmask { name: e.name@ },
            ]);
            out.push(Step::Conditional { predicate: c.clone(), steps: inner });
        },
    }
    out.push(Step::Unmask { name: e.name.clone() });
    assert(steps_view(out@) =~= steps_view(start) + interrupt_block(e@, bits as nat));
    Ok(())
}

fn emit_exception(e: &Entry, bits: u32, out: &mut Vec<Step>) -> (r: Result<(), BootstrapError>)
    requires
        bits <= 8,
    ensures
        r is Ok <==> representable(e.priority as int, bits as nat),
        r is Ok ==> steps_view(final(out)@) == steps_view(old(out)@) + exception_block(
            e@,
            bits as nat,
        ),
        r matches Err(x) ==> x == (BootstrapError::UnrepresentablePriority { priority: e.priority }),
{
    let h = match encode(e.priority, bits) {
        Ok(h) => h,
        Err(x) => {
            return Err(x);
        },
    };
    let ghost start = out@;
    out.push(Step::AssertPriority { priority: e.priority });
    match &e.cfg {
        None => {
            out.push(Step::SetExceptionPriority { name: e.name.clone(), hw_priority: h });
        },
        Some(c) => {
            let mut inner: Vec<GuardedStep> = Vec::new();
            inner.push(GuardedStep::SetExceptionPriority { name: e.name.clone(), hw_priority: h });
            let ghost iv = inner@;
            assert(iv.map_values(|g: GuardedStep| g@) =~= seq![
                StepModel::SetExceptionPriority { name: e.name@, hw_priority: h },
            ]);
            out.push(Step::Conditional { predicate: c.clone(), steps: inner });
        },
    }
    assert(steps_view(out@) =~= steps_view(start) + exception_block(e@, bits as nat));
    Ok(())
}

fn emit_timer(m: &MonotonicTask, bits: u32, out: &mut Vec<Step>) -> (r: Result<(), BootstrapError>)
    requires
        bits <= 8,
    ensures
        r is Ok <==> representable(m.priority as int, bits as nat),
        r is Ok ==> steps_view(final(out)@) == steps_view(old(out)@) + timer_block(m@, bits as nat),
        r matches Err(x) ==> x == (BootstrapError::UnrepresentablePriority { priority: m.priority }),
{
    let h = match encode(m.priority, bits) {
        Ok(h) => h,
        Err(x) => {
            return Err(x);
        },
    };
    let ghost start = out@;
    out.push(Step::AssertPriority { priority: m.priority });
    if binds_systick(&m.binds) {
        out.push(Step::SetExceptionPriority { name: m.binds.clone(), hw_priority: h });
    } else {
        out.push(Step::SetInterruptPriority { name: m.binds.clone(), hw_priority: h });
    }
    if !m.disable_interrupt_on_empty_queue {
        out.push(Step::EnableTimerInterrupt { name: m.binds.clone() });
    }
    assert(steps_view(out@) =~= steps_view(start) + timer_block(m@, bits as nat));
    Ok(())
}

fn emit_interrupts(es: &Vec<Entry>, bits: u32, out: &mut Vec<Step>) -> (r: Result<(), BootstrapError>)
    requires
        bits <= 8,
    ensures
        r is Ok <==> all_representable(entry_priorities(entries_view(es@)), bits as nat),
        r is Ok ==> steps_view(final(out)@) == steps_view(old(out)@) + interrupt_blocks(
            entries_view(es@),
            bits as nat,
        ),
        r matches Err(x) ==> rejects_first(entry_priorities(entries_view(es@)), bits as nat, x),
{
    let ghost start = steps_view(out@);
    let ghost ev = entries_view(es@);
    let ghost ps = entry_priorities(ev);
    let mut i: usize = 0;
    while i < es.len()
        invariant
            i <= es@.len(),
            bits <= 8,
            ev == entries_view(es@),
            ps == entry_priorities(ev),
            forall|j: int| 0 <= j < i ==> representable(#[trigger] ps[j] as int, bits as nat),
            steps_view(out@) =~= start + interrupt_blocks(ev.take(i as int), bits as nat),
        decreases es@.len() - i,
    {
        match emit_interrupt(&es[i], bits, out) {
            Ok(_) => {},
            Err(x) => {
                assert(ps[i as int] == es@[i as int].priority);
                assert(rejects_first(ps, bits as nat, x));
                return Err(x);
            },
        }
        assert(ev.take(i + 1).drop_last() =~= ev.take(i as int));
        i = i + 1;
    }
    assert(ev.take(i as int) =~= ev);
    Ok(())
}

fn emit_exceptions(es: &Vec<Entry>, bits: u32, out: &mut Vec<Step>) -> (r: Result<(), BootstrapError>)
    requires
        bits <= 8,
    ensures
        r is Ok <==> all_representable(entry_priorities(entries_view(es@)), bits as nat),
        r is Ok ==> steps_view(final(out)@) == steps_view(old(out)@) + exception_blocks(
            entries_view(es@),
            bits as nat,
        ),
        r matches Err(x) ==> rejects_first(entry_priorities(entries_view(es@)), bits as nat, x),
{
    let ghost start = steps_view(out@);
    let ghost ev = entries_view(es@);
    let ghost ps = entry_priorities(ev);
    let mut i: usize = 0;
    while i < es.len()
        invariant
            i <= es@.len(),
            bits <= 8,
            ev == entries_view(es@),
            ps == entry_priorities(ev),
            forall|j: int| 0 <= j < i ==> representable(#[trigger] ps[j] as int, bits as nat),
            steps_view(out@) =~= start + exception_blocks(ev.take(i as int), bits as nat),
        decreases es@.len() - i,
    {
        match emit_exception(&es[i], bits, out) {
            Ok(_) => {},
            Err(x) => {
                assert(ps[i as int] == es@[i as int].priority);
                assert(rejects_first(ps, bits as nat, x));
                return Err(x);
            },
        }
        assert(ev.take(i + 1).drop_last() =~= ev.take(i as int));
        i = i + 1;
    }
    assert(ev.take(i as int) =~= ev);
    Ok(())
}

fn emit_timers(ms: &Vec<MonotonicTask>, bits: u32, out: &mut Vec<Step>) -> (r: Result<
    (),
    BootstrapError,
>)
    requires
        bits <= 8,
    ensures
        r is Ok <==> all_representable(timer_priorities(monotonics_view(ms@)), bits as nat),
        r is Ok ==> steps_view(final(out)@) == steps_view(old(out)@) + timer_blocks(
            monotonics_view(ms@),
            bits as nat,
        ),
        r matches Err(x) ==> rejects_first(timer_priorities(monotonics_view(ms@)), bits as nat, x),
{
    let ghost start = steps_view(out@);
    let ghost mv = monotonics_view(ms@);
    let ghost ps = timer_priorities(mv);
    let mut i: usize = 0;
    while i < ms.len()
        invariant
            i <= ms@.len(),
            bits <= 8,
            mv == monotonics_view(ms@),
            ps == timer_priorities(mv),
            forall|j: int| 0 <= j < i ==> representable(#[trigger] ps[j] as int, bits as nat),
            steps_view(out@) =~= start + timer_blocks(mv.take(i as int), bits as nat),
        decreases ms@.len() - i,
    {
        match emit_timer(&ms[i], bits, out) {
            Ok(_) => {},
            Err(x) => {
                assert(ps[i as int] == ms@[i as int].priority);
                assert(rejects_first(ps, bits as nat, x));
                return Err(x);
            },
        }
        assert(mv.take(i + 1).drop_last() =~= mv.take(i as int));
        i = i + 1;
    }
    assert(mv.take(i as int) =~= mv);
    Ok(())
}

proof fn lemma_all_representable_concat(a: Seq<u32>, b: Seq<u32>, bits: nat)
    ensures
        all_representable(a + b, bits) == (all_representable(a, bits) && all_representable(b, bits)),
{
    if all_representable(a, bits) && all_representable(b, bits) {
        assert forall|i: int| 0 <= i < (a + b).len() implies representable(
            #[trigger] (a + b)[i] as int,
            bits,
        ) by {
            if i >= a.len() {
                assert((a + b)[i] == b[i - a.len()]);
            }
        }
    }
    if all_representable(a + b, bits) {
        assert forall|i: int| 0 <= i < a.len() implies representable(#[trigger] a[i] as int, bits) by {
            assert((a + b)[i] == a[i]);
        }
        assert forall|i: int| 0 <= i < b.len() implies representable(#[trigger] b[i] as int, bits) by {
            assert((a + b)[a.len() + i] == b[i]);
        }
    }
}

proof fn lemma_rejects_first_extend(a: Seq<u32>, b: Seq<u32>, bits: nat, e: BootstrapError)
    requires
        rejects_first(a, bits, e),
    ensures
        rejects_first(a + b, bits, e),
{
    let k = choose|k: int|
        0 <= k < a.len() && !representable(a[k] as int, bits) && (forall|j: int|
            0 <= j < k ==> representable(#[trigger] a[j] as int, bits)) && e
            == (BootstrapError::UnrepresentablePriority { priority: a[k] });
    let c = a + b;
    assert(c[k] == a[k]);
    assert forall|j: int| 0 <= j < k implies representable(#[trigger] c[j] as int, bits) by {
        assert(c[j] == a[j]);
    }
}

proof fn lemma_rejects_first_shift(a: Seq<u32>, b: Seq<u32>, bits: nat, e: BootstrapError)
    requires
        all_representable(a, bits),
        rejects_first(b, bits, e),
    ensures
        rejects_first(a + b, bits, e),
{
    let k = choose|k: int|
        0 <= k < b.len() && !representable(b[k] as int, bits) && (forall|j: int|
            0 <= j < k ==> representable(#[trigger] b[j] as int, bits)) && e
            == (BootstrapError::UnrepresentablePriority { priority: b[k] });
    let c = a + b;
    let kk = a.len() + k;
    assert(c[kk] == b[k]);
    assert forall|j: int| 0 <= j < kk implies representable(#[trigger] c[j] as int, bits) by {
        if j < a.len() {
            assert(c[j] == a[j]);
        } else {
            assert(c[j] == b[j - a.len()]);
        }
    }
}

/// Builds the bootstrap sequence of an application.
///
/// Every priority is checked, in the order of `checked_priorities`, before the
/// step that programs it; the first one that is not representable with
/// `priority_bits` bits fails the whole construction, and no sequence is
/// returned.
pub fn codegen(app: &App, analysis: &Analysis, priority_bits: u32) -> (r: Result<
    Vec<Step>,
    BootstrapError,
>)
    requires
        priority_bits <= 8,
    ensures
        r is Ok <==> all_representable(checked_priorities(app@, analysis@), priority_bits as nat),
        r matches Ok(s) ==> steps_view(s@) == bootstrap_steps(app@, analysis@, priority_bits as nat),
        r matches Err(e) ==> rejects_first(
            checked_priorities(app@, analysis@),
            priority_bits as nat,
            e,
        ),
{
    let ghost bits = priority_bits as nat;
    let ghost irq_prios = entry_priorities(interrupt_entries(app@, analysis@));
    let ghost exc_prios = entry_priorities(exception_entries(app@));
    let ghost timer_prios = timer_priorities(app@.monotonics);
    assert(checked_priorities(app@, analysis@) == irq_prios + exc_prios + timer_prios);

    let mut interrupts: Vec<Entry> = Vec::new();
    collect_dispatchers(&analysis.interrupts, &mut interrupts);
    collect_bindings(&app.hardware_tasks, false, &mut interrupts);
    let mut exceptions: Vec<Entry> = Vec::new();
    collect_bindings(&app.hardware_tasks, true, &mut exceptions);
    assert(entries_view(interrupts@) =~= interrupt_entries(app@, analysis@));
    assert(entries_view(exceptions@) =~= exception_entries(app@));

    let mut steps: Vec<Step> = Vec::new();
    steps.push(Step::DisableInterrupts);
    assert(steps_view(steps@) =~= seq![StepModel::DisableInterrupts]);
    seed_queues(&app.software_tasks, &mut steps);
    let ghost seeded = steps@;
    steps.push(Step::AcquirePeripherals);
    assert(steps_view(steps@) =~= steps_view(seeded) + seq![StepModel::AcquirePeripherals]);
    match emit_interrupts(&interrupts, priority_bits, &mut steps) {
        Ok(_) => {},
        Err(e) => {
            proof {
                lemma_rejects_first_extend(irq_prios, exc_prios, bits, e);
                lemma_rejects_first_extend(irq_prios + exc_prios, timer_prios, bits, e);
            }
            return Err(e);
        },
    }
    match emit_exceptions(&exceptions, priority_bits, &mut steps) {
        Ok(_) => {},
        Err(e) => {
            proof {
                lemma_rejects_first_shift(irq_prios, exc_prios, bits, e);
                lemma_rejects_first_extend(irq_prios + exc_prios, timer_prios, bits, e);
            }
            return Err(e);
        },
    }
    proof {
        lemma_all_representable_concat(irq_prios, exc_prios, bits);
    }
    match emit_timers(&app.monotonics, priority_bits, &mut steps) {
        Ok(_) => {},
        Err(e) => {
            proof {
                lemma_rejects_first_shift(irq_prios + exc_prios, timer_prios, bits, e);
            }
            return Err(e);
        },
    }
    proof {
        lemma_all_representable_concat(irq_prios + exc_prios, timer_prios, bits);
    }
    let ghost programmed = steps@;
    if !app.has_idle {
        steps.push(Step::SleepOnExit);
    }
    assert(steps_view(steps@) =~= steps_view(programmed) + idle_steps(app@));
    assert(steps_view(steps@) =~= bootstrap_steps(app@, analysis@, bits));
    Ok(steps)
}

} // verus!
