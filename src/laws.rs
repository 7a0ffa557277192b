//! Properties of the bootstrap sequence as a whole.
use crate::model::{App, AppModel, Analysis, DispatcherInterruptModel, MonotonicTaskModel};
use crate::sequence::{
    bootstrap_steps, checked_priorities, exception_block, exception_blocks, guarded, idle_steps, interrupt_block,
    interrupt_blocks, hw, seed_step, seed_steps, slot_indices, timer_block, timer_blocks, EntryModel,
    interrupt_entries, exception_entries,
};
use crate::step::StepModel;
use vstd::prelude::*;

verus! {

/// The steps that one step stands for once conditionals are opened up.
pub open spec fn expand(s: StepModel) -> Seq<StepModel> {
    match s {
        StepModel::Conditional { steps, .. } => steps,
        _ => seq![s],
    }
}

/// The sequence with every conditional replaced by the steps it guards.
pub open spec fn flatten(s: Seq<StepModel>) -> Seq<StepModel>
    decreases s.len(),
{
    if s.len() == 0 {
        seq![]
    } else {
        flatten(s.drop_last()) + expand(s.last())
    }
}

pub open spec fn sets_priority_of(s: StepModel, n: Seq<char>) -> bool {
    match s {
        StepModel::SetInterruptPriority { name, .. } => name == n,
        _ => false,
    }
}

pub open spec fn unmasks(s: StepModel, n: Seq<char>) -> bool {
    match s {
        StepModel::Unmask { name } => name == n,
        _ => false,
    }
}

/// Each unmask of an interrupt comes after a step that sets its priority.
pub open spec fn priority_set_before_unmask(f: Seq<StepModel>) -> bool {
    forall|j: int, n: Seq<char>|
        0 <= j < f.len() && #[trigger] unmasks(f[j], n) ==> exists|i: int|
            0 <= i < j && #[trigger] sets_priority_of(f[i], n)
}

pub open spec fn no_unmask(f: Seq<StepModel>) -> bool {
    forall|j: int, n: Seq<char>| 0 <= j < f.len() ==> !#[trigger] unmasks(f[j], n)
}

proof fn lemma_flatten_concat(a: Seq<StepModel>, b: Seq<StepModel>)
    ensures
        flatten(a + b) == flatten(a) + flatten(b),
    decreases b.len(),
{
    if b.len() == 0 {
        assert(a + b =~= a);
        assert(flatten(a) + flatten(b) =~= flatten(a));
    } else {
        assert((a + b).drop_last() =~= a + b.drop_last());
        assert((a + b).last() == b.last());
        lemma_flatten_concat(a, b.drop_last());
        assert(flatten(a + b) =~= flatten(a) + flatten(b));
    }
}

proof fn lemma_flatten_one(s: StepModel)
    ensures
        flatten(seq![s]) == expand(s),
{
    assert(seq![s].drop_last() =~= Seq::<StepModel>::empty());
    assert(flatten(Seq::<StepModel>::empty()) + expand(s) =~= expand(s));
}

/// A sequence without conditionals is its own flattening.
proof fn lemma_flatten_plain(s: Seq<StepModel>)
    requires
        forall|i: int| 0 <= i < s.len() ==> !(#[trigger] s[i] is Conditional),
    ensures
        flatten(s) == s,
    decreases s.len(),
{
    if s.len() > 0 {
        lemma_flatten_plain(s.drop_last());
        assert(flatten(s) =~= s);
    }
}

proof fn lemma_order_concat(x: Seq<StepModel>, y: Seq<StepModel>)
    requires
        priority_set_before_unmask(x),
        priority_set_before_unmask(y),
    ensures
        priority_set_before_unmask(x + y),
{
    let f = x + y;
    assert forall|j: int, n: Seq<char>|
        0 <= j < f.len() && #[trigger] unmasks(f[j], n) implies exists|i: int|
            0 <= i < j && #[trigger] sets_priority_of(f[i], n) by {
        if j < x.len() {
            assert(f[j] == x[j]);
            let i = choose|i: int| 0 <= i < j && #[trigger] sets_priority_of(x[i], n);
            assert(f[i] == x[i]);
        } else {
            assert(f[j] == y[j - x.len()]);
            assert(unmasks(y[j - x.len()], n));
            let i = choose|i: int| 0 <= i < j - x.len() && #[trigger] sets_priority_of(y[i], n);
            assert(f[x.len() + i] == y[i]);
        }
    }
}

proof fn lemma_interrupt_blocks_order(es: Seq<EntryModel>, bits: nat)
    ensures
        priority_set_before_unmask(flatten(interrupt_blocks(es, bits))),
    decreases es.len(),
{
    if es.len() > 0 {
        let e = es.last();
        lemma_interrupt_blocks_order(es.drop_last(), bits);
        lemma_flatten_concat(interrupt_blocks(es.drop_last(), bits), interrupt_block(e, bits));
        let set = StepModel::SetInterruptPriority { name: e.name, hw_priority: hw(e.priority, bits) };
        let un = StepModel::Unmask { name: e.name };
        let head = seq![StepModel::AssertPriority { priority: e.priority }];
        let g = guarded(e.cfg, seq![set, un]);
        lemma_flatten_concat(head + g, seq![un]);
        lemma_flatten_concat(head, g);
        lemma_flatten_one(StepModel::AssertPriority { priority: e.priority });
        lemma_flatten_one(un);
        match e.cfg {
            None => {
                lemma_flatten_plain(seq![set, un]);
            },
            Some(c) => {
                lemma_flatten_one(StepModel::Conditional { predicate: c, steps: seq![set, un] });
            },
        }
        let fb = flatten(interrupt_block(e, bits));
        assert(fb =~= seq![StepModel::AssertPriority { priority: e.priority }, set, un, un]);
        assert(sets_priority_of(fb[1], e.name));
        lemma_order_concat(flatten(interrupt_blocks(es.drop_last(), bits)), fb);
    }
}

proof fn lemma_exception_blocks_no_unmask(es: Seq<EntryModel>, bits: nat)
    ensures
        no_unmask(flatten(exception_blocks(es, bits))),
    decreases es.len(),
{
    if es.len() > 0 {
        let e = es.last();
        lemma_exception_blocks_no_unmask(es.drop_last(), bits);
        lemma_flatten_concat(exception_blocks(es.drop_last(), bits), exception_block(e, bits));
        let set = StepModel::SetExceptionPriority { name: e.name, hw_priority: hw(e.priority, bits) };
        let head = seq![StepModel::AssertPriority { priority: e.priority }];
        lemma_flatten_concat(head, guarded(e.cfg, seq![set]));
        lemma_flatten_one(StepModel::AssertPriority { priority: e.priority });
        lemma_flatten_one(set);
        match e.cfg {
            None => {},
            Some(c) => {
                lemma_flatten_one(StepModel::Conditional { predicate: c, steps: seq![set] });
            },
        }
        let prev = flatten(exception_blocks(es.drop_last(), bits));
        let fb = flatten(exception_block(e, bits));
        assert(fb =~= seq![StepModel::AssertPriority { priority: e.priority }, set]);
        assert forall|j: int, n: Seq<char>| 0 <= j < (prev + fb).len() implies !#[trigger] unmasks(
            (prev + fb)[j],
            n,
        ) by {
            if j < prev.len() {
                assert((prev + fb)[j] == prev[j]);
            } else {
                assert((prev + fb)[j] == fb[j - prev.len()]);
            }
        }
    }
}

/// Timer blocks hold only checks, priority settings and timer enables.
proof fn lemma_timer_blocks_kinds(ms: Seq<MonotonicTaskModel>, bits: nat)
    ensures
        forall|i: int|
            0 <= i < timer_blocks(ms, bits).len() ==> {
                let s = #[trigger] timer_blocks(ms, bits)[i];
                s is AssertPriority || s is SetExceptionPriority || s is SetInterruptPriority
                    || s is EnableTimerInterrupt
            },
    decreases ms.len(),
{
    if ms.len() > 0 {
        lemma_timer_blocks_kinds(ms.drop_last(), bits);
        let prev = timer_blocks(ms.drop_last(), bits);
        let b = timer_block(ms.last(), bits);
        assert forall|i: int| 0 <= i < (prev + b).len() implies {
            let s = #[trigger] (prev + b)[i];
            s is AssertPriority || s is SetExceptionPriority || s is SetInterruptPriority
                || s is EnableTimerInterrupt
        } by {
            if i < prev.len() {
                assert((prev + b)[i] == prev[i]);
            } else {
                assert((prev + b)[i] == b[i - prev.len()]);
            }
        }
    }
}

/// Interrupt blocks hold only checks, priority settings, unmasks and conditionals.
proof fn lemma_interrupt_blocks_kinds(es: Seq<EntryModel>, bits: nat)
    ensures
        forall|i: int|
            0 <= i < interrupt_blocks(es, bits).len() ==> {
                let s = #[trigger] interrupt_blocks(es, bits)[i];
                s is AssertPriority || s is SetInterruptPriority || s is Unmask || s is Conditional
            },
    decreases es.len(),
{
    if es.len() > 0 {
        lemma_interrupt_blocks_kinds(es.drop_last(), bits);
        let prev = interrupt_blocks(es.drop_last(), bits);
        let b = interrupt_block(es.last(), bits);
        assert forall|i: int| 0 <= i < (prev + b).len() implies {
            let s = #[trigger] (prev + b)[i];
            s is AssertPriority || s is SetInterruptPriority || s is Unmask || s is Conditional
        } by {
            if i < prev.len() {
                assert((prev + b)[i] == prev[i]);
            } else {
                assert((prev + b)[i] == b[i - prev.len()]);
            }
        }
    }
}

/// Exception blocks hold only checks, priority settings and conditionals.
proof fn lemma_exception_blocks_kinds(es: Seq<EntryModel>, bits: nat)
    ensures
        forall|i: int|
            0 <= i < exception_blocks(es, bits).len() ==> {
                let s = #[trigger] exception_blocks(es, bits)[i];
                s is AssertPriority || s is SetExceptionPriority || s is Conditional
            },
    decreases es.len(),
{
    if es.len() > 0 {
        lemma_exception_blocks_kinds(es.drop_last(), bits);
        let prev = exception_blocks(es.drop_last(), bits);
        let b = exception_block(es.last(), bits);
        assert forall|i: int| 0 <= i < (prev + b).len() implies {
            let s = #[trigger] (prev + b)[i];
            s is AssertPriority || s is SetExceptionPriority || s is Conditional
        } by {
            if i < prev.len() {
                assert((prev + b)[i] == prev[i]);
            } else {
                assert((prev + b)[i] == b[i - prev.len()]);
            }
        }
    }
}

proof fn lemma_concat_contains(x: Seq<StepModel>, y: Seq<StepModel>, t: StepModel)
    ensures
        (x + y).contains(t) == (x.contains(t) || y.contains(t)),
{
    if x.contains(t) {
        let j = choose|j: int| 0 <= j < x.len() && x[j] == t;
        assert((x + y)[j] == x[j]);
    }
    if y.contains(t) {
        let j = choose|j: int| 0 <= j < y.len() && y[j] == t;
        assert((x + y)[x.len() + j] == y[j]);
    }
    if (x + y).contains(t) {
        let j = choose|j: int| 0 <= j < (x + y).len() && (x + y)[j] == t;
        if j < x.len() {
            assert(x[j] == t);
        } else {
            assert(y[j - x.len()] == t);
        }
    }
}

proof fn lemma_plain_part(s: Seq<StepModel>)
    requires
        forall|i: int| 0 <= i < s.len() ==> !(#[trigger] s[i] is Conditional) && !(s[i] is Unmask),
    ensures
        priority_set_before_unmask(flatten(s)),
{
    lemma_flatten_plain(s);
}

proof fn lemma_timer_blocks_enable(ms: Seq<MonotonicTaskModel>, bits: nat, n: Seq<char>)
    ensures
        timer_blocks(ms, bits).contains(StepModel::EnableTimerInterrupt { name: n }) <==> exists|
            k: int,
        |
            0 <= k < ms.len() && (#[trigger] ms[k]).binds == n
                && !ms[k].disable_interrupt_on_empty_queue,
    decreases ms.len(),
{
    let t = StepModel::EnableTimerInterrupt { name: n };
    if ms.len() > 0 {
        let m = ms.last();
        let init = ms.drop_last();
        lemma_timer_blocks_enable(init, bits, n);
        lemma_concat_contains(timer_blocks(init, bits), timer_block(m, bits), t);
        let b = timer_block(m, bits);
        assert(b.contains(t) <==> (m.binds == n && !m.disable_interrupt_on_empty_queue)) by {
            if b.contains(t) {
                let j = choose|j: int| 0 <= j < b.len() && b[j] == t;
                assert(j == 2);
            }
            if m.binds == n && !m.disable_interrupt_on_empty_queue {
                assert(b[2] == t);
            }
        }
        if exists|k: int|
            0 <= k < ms.len() && (#[trigger] ms[k]).binds == n
                && !ms[k].disable_interrupt_on_empty_queue {
            let k = choose|k: int|
                0 <= k < ms.len() && (#[trigger] ms[k]).binds == n
                    && !ms[k].disable_interrupt_on_empty_queue;
            if k < init.len() {
                assert(init[k] == ms[k]);
            }
        }
        if exists|k: int|
            0 <= k < init.len() && (#[trigger] init[k]).binds == n
                && !init[k].disable_interrupt_on_empty_queue {
            let k = choose|k: int|
                0 <= k < init.len() && (#[trigger] init[k]).binds == n
                    && !init[k].disable_interrupt_on_empty_queue;
            assert(ms[k] == init[k]);
        }
        if m.binds == n && !m.disable_interrupt_on_empty_queue {
            assert(ms[ms.len() - 1] == m);
        }
    }
}

/// Seeding: the step right after the initial masking of interrupts, offset by
/// the task's position, fills the free-slot queue of each software task with
/// the slot indices `0 .. capacity`, each once and in ascending order.
pub proof fn lemma_seeded_queue(
    app: AppModel,
    analysis: Seq<DispatcherInterruptModel>,
    bits: nat,
    i: int,
)
    requires
        0 <= i < app.software_tasks.len(),
    ensures
        bootstrap_steps(app, analysis, bits)[1 + i] == (StepModel::SeedQueue {
            task: app.software_tasks[i].name,
            slots: slot_indices(app.software_tasks[i].capacity),
        }),
        slot_indices(app.software_tasks[i].capacity).len() == app.software_tasks[i].capacity,
        forall|k: int|
            0 <= k < app.software_tasks[i].capacity ==> #[trigger] slot_indices(
                app.software_tasks[i].capacity,
            )[k] as int == k,
{
    let s = bootstrap_steps(app, analysis, bits);
    assert(seed_steps(app.software_tasks)[i] == seed_step(app.software_tasks[i]));
    assert(s[1 + i] == seed_steps(app.software_tasks)[i]);
}

/// Ordering: with conditionals opened up, every unmask of an interrupt in the
/// sequence comes after a step that sets that interrupt's priority.
pub proof fn lemma_priority_before_unmask(
    app: AppModel,
    analysis: Seq<DispatcherInterruptModel>,
    bits: nat,
)
    ensures
        priority_set_before_unmask(flatten(bootstrap_steps(app, analysis, bits))),
{
    let a = seq![StepModel::DisableInterrupts];
    let b = seed_steps(app.software_tasks);
    let c = seq![StepModel::AcquirePeripherals];
    let d = interrupt_blocks(interrupt_entries(app, analysis), bits);
    let e = exception_blocks(exception_entries(app), bits);
    let f = timer_blocks(app.monotonics, bits);
    let g = idle_steps(app);
    assert(forall|i: int| 0 <= i < b.len() ==> #[trigger] b[i] == seed_step(app.software_tasks[i]));
    lemma_plain_part(a);
    lemma_plain_part(b);
    lemma_plain_part(c);
    lemma_interrupt_blocks_order(interrupt_entries(app, analysis), bits);
    lemma_exception_blocks_no_unmask(exception_entries(app), bits);
    lemma_timer_blocks_kinds(app.monotonics, bits);
    lemma_plain_part(f);
    lemma_plain_part(g);
    lemma_flatten_concat(a, b);
    lemma_flatten_concat(a + b, c);
    lemma_flatten_concat(a + b + c, d);
    lemma_flatten_concat(a + b + c + d, e);
    lemma_flatten_concat(a + b + c + d + e, f);
    lemma_flatten_concat(a + b + c + d + e + f, g);
    lemma_order_concat(flatten(a), flatten(b));
    lemma_order_concat(flatten(a + b), flatten(c));
    lemma_order_concat(flatten(a + b + c), flatten(d));
    lemma_order_concat(flatten(a + b + c + d), flatten(e));
    lemma_order_concat(flatten(a + b + c + d + e), flatten(f));
    lemma_order_concat(flatten(a + b + c + d + e + f), flatten(g));
}

/// Idle path: the sleep-on-exit step is in the sequence exactly when the
/// application declares no idle task, and then only once.
pub proof fn lemma_sleep_on_exit(app: AppModel, analysis: Seq<DispatcherInterruptModel>, bits: nat)
    ensures
        bootstrap_steps(app, analysis, bits).contains(StepModel::SleepOnExit) <==> !app.has_idle,
        forall|j: int, k: int|
            0 <= j < bootstrap_steps(app, analysis, bits).len() && 0 <= k < bootstrap_steps(
                app,
                analysis,
                bits,
            ).len() && bootstrap_steps(app, analysis, bits)[j] == StepModel::SleepOnExit
                && bootstrap_steps(app, analysis, bits)[k] == StepModel::SleepOnExit ==> j == k,
{
    let t = StepModel::SleepOnExit;
    let a = seq![StepModel::DisableInterrupts];
    let b = seed_steps(app.software_tasks);
    let c = seq![StepModel::AcquirePeripherals];
    let d = interrupt_blocks(interrupt_entries(app, analysis), bits);
    let e = exception_blocks(exception_entries(app), bits);
    let f = timer_blocks(app.monotonics, bits);
    let g = idle_steps(app);
    assert(forall|i: int| 0 <= i < b.len() ==> #[trigger] b[i] == seed_step(app.software_tasks[i]));
    lemma_interrupt_blocks_kinds(interrupt_entries(app, analysis), bits);
    lemma_exception_blocks_kinds(exception_entries(app), bits);
    lemma_timer_blocks_kinds(app.monotonics, bits);
    assert(!a.contains(t));
    assert(!b.contains(t));
    assert(!c.contains(t));
    assert(!d.contains(t));
    assert(!e.contains(t));
    assert(!f.contains(t));
    lemma_concat_contains(a, b, t);
    lemma_concat_contains(a + b, c, t);
    lemma_concat_contains(a + b + c, d, t);
    lemma_concat_contains(a + b + c + d, e, t);
    lemma_concat_contains(a + b + c + d + e, f, t);
    lemma_concat_contains(a + b + c + d + e + f, g, t);
    if !app.has_idle {
        assert(g[0] == t);
    }
    let pre = a + b + c + d + e + f;
    let s = pre + g;
    assert forall|j: int| 0 <= j < s.len() && s[j] == t implies j == pre.len() by {
        if j < pre.len() {
            assert(pre[j] == s[j]);
        }
    }
}

/// Timer enabling: a timer's interrupt is enabled for good by the sequence
/// exactly when its type does not tolerate the interrupt being masked while its
/// queue is empty, whatever predicates gate the other bindings.
pub proof fn lemma_timer_enable(
    app: AppModel,
    analysis: Seq<DispatcherInterruptModel>,
    bits: nat,
    k: int,
)
    requires
        0 <= k < app.monotonics.len(),
        forall|x: int, y: int|
            0 <= x < app.monotonics.len() && 0 <= y < app.monotonics.len() && x != y ==> (
            #[trigger] app.monotonics[x]).binds != (#[trigger] app.monotonics[y]).binds,
    ensures
        bootstrap_steps(app, analysis, bits).contains(
            StepModel::EnableTimerInterrupt { name: app.monotonics[k].binds },
        ) <==> !app.monotonics[k].disable_interrupt_on_empty_queue,
{
    let n = app.monotonics[k].binds;
    let t = StepModel::EnableTimerInterrupt { name: n };
    let a = seq![StepModel::DisableInterrupts];
    let b = seed_steps(app.software_tasks);
    let c = seq![StepModel::AcquirePeripherals];
    let d = interrupt_blocks(interrupt_entries(app, analysis), bits);
    let e = exception_blocks(exception_entries(app), bits);
    let f = timer_blocks(app.monotonics, bits);
    let g = idle_steps(app);
    assert(forall|i: int| 0 <= i < b.len() ==> #[trigger] b[i] == seed_step(app.software_tasks[i]));
    lemma_interrupt_blocks_kinds(interrupt_entries(app, analysis), bits);
    lemma_exception_blocks_kinds(exception_entries(app), bits);
    lemma_timer_blocks_enable(app.monotonics, bits, n);
    assert(!a.contains(t));
    assert(!b.contains(t));
    assert(!c.contains(t));
    assert(!d.contains(t));
    assert(!e.contains(t));
    assert(!g.contains(t));
    lemma_concat_contains(a, b, t);
    lemma_concat_contains(a + b, c, t);
    lemma_concat_contains(a + b + c, d, t);
    lemma_concat_contains(a + b + c + d, e, t);
    lemma_concat_contains(a + b + c + d + e, f, t);
    lemma_concat_contains(a + b + c + d + e + f, g, t);
}

/// Purity: the sequence, and the priorities checked on the way, depend on the
/// content of the application and the analysis alone, so building it twice
/// from the same input gives the same result.
pub proof fn lemma_deterministic(a1: App, a2: App, n1: Analysis, n2: Analysis, bits: nat)
    requires
        a1@ == a2@,
        n1@ == n2@,
    ensures
        bootstrap_steps(a1@, n1@, bits) == bootstrap_steps(a2@, n2@, bits),
        checked_priorities(a1@, n1@) == checked_priorities(a2@, n2@),
{
}

} // verus!
