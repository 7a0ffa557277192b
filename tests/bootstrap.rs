use rtic_bootstrap::model::{
    binds_systick, is_exception, Analysis, App, Binding, DispatcherInterrupt, HardwareTask,
    MonotonicTask, SoftwareTask,
};
use rtic_bootstrap::priority::{encode, BootstrapError};
use rtic_bootstrap::sequence::{codegen, seed_queue};
use rtic_bootstrap::step::{GuardedStep, Step};

fn s(x: &str) -> String {
    x.to_string()
}

fn empty_app() -> App {
    App { software_tasks: vec![], hardware_tasks: vec![], monotonics: vec![], has_idle: true }
}

fn no_analysis() -> Analysis {
    Analysis { interrupts: vec![] }
}

fn hw_task(name: &str, priority: u32, binds: Vec<Binding>) -> HardwareTask {
    HardwareTask { name: s(name), priority, binds }
}

fn bind(name: &str) -> Binding {
    Binding { name: s(name), cfg: None }
}

fn bind_if(name: &str, cfg: &str) -> Binding {
    Binding { name: s(name), cfg: Some(s(cfg)) }
}

fn timer(binds: &str, priority: u32, disable_on_empty: bool) -> MonotonicTask {
    MonotonicTask {
        name: s("Mono"),
        priority,
        binds: s(binds),
        disable_interrupt_on_empty_queue: disable_on_empty,
    }
}

#[test]
fn scenario_one_software_one_hardware_task() {
    let app = App {
        software_tasks: vec![SoftwareTask { name: s("A"), capacity: 4 }],
        hardware_tasks: vec![hw_task("t", 3, vec![bind("X")])],
        monotonics: vec![],
        has_idle: false,
    };
    let steps = codegen(&app, &no_analysis(), 4).unwrap();
    assert_eq!(
        steps,
        vec![
            Step::DisableInterrupts,
            Step::SeedQueue { task: s("A"), slots: vec![0, 1, 2, 3] },
            Step::AcquirePeripherals,
            Step::AssertPriority { priority: 3 },
            Step::SetInterruptPriority { name: s("X"), hw_priority: 208 },
            Step::Unmask { name: s("X") },
            Step::Unmask { name: s("X") },
            Step::SleepOnExit,
        ]
    );
}

#[test]
fn scenario_priority_too_large_fails() {
    let app = App {
        software_tasks: vec![SoftwareTask { name: s("A"), capacity: 4 }],
        hardware_tasks: vec![hw_task("t", 17, vec![bind("X")])],
        monotonics: vec![],
        has_idle: false,
    };
    assert_eq!(
        codegen(&app, &no_analysis(), 4),
        Err(BootstrapError::UnrepresentablePriority { priority: 17 })
    );
}

#[test]
fn encoder_accepts_exactly_one_to_two_pow_bits() {
    assert_eq!(encode(0, 4), Err(BootstrapError::UnrepresentablePriority { priority: 0 }));
    assert_eq!(encode(1, 4), Ok(240));
    assert_eq!(encode(3, 4), Ok(208));
    assert_eq!(encode(16, 4), Ok(0));
    assert_eq!(encode(17, 4), Err(BootstrapError::UnrepresentablePriority { priority: 17 }));
    assert_eq!(encode(1, 0), Ok(0));
    assert_eq!(encode(2, 0), Err(BootstrapError::UnrepresentablePriority { priority: 2 }));
    assert_eq!(encode(1, 8), Ok(255));
    assert_eq!(encode(256, 8), Ok(0));
    assert_eq!(encode(257, 8), Err(BootstrapError::UnrepresentablePriority { priority: 257 }));
    assert_eq!(encode(3, 3), Ok(160));
}

#[test]
fn encoder_reverses_order() {
    for p in 1..16u32 {
        assert!(encode(p, 4).unwrap() > encode(p + 1, 4).unwrap());
    }
}

#[test]
fn zero_priority_fails_construction() {
    let mut app = empty_app();
    app.monotonics = vec![timer("TIM2", 0, true)];
    assert_eq!(
        codegen(&app, &no_analysis(), 3),
        Err(BootstrapError::UnrepresentablePriority { priority: 0 })
    );
}

#[test]
fn first_unrepresentable_priority_is_reported() {
    let app = App {
        software_tasks: vec![],
        hardware_tasks: vec![hw_task("e", 9, vec![bind("PendSV")]), hw_task("i", 20, vec![bind("X")])],
        monotonics: vec![timer("TIM2", 30, true)],
        has_idle: true,
    };
    // interrupts are checked before exceptions, exceptions before timers
    assert_eq!(
        codegen(&app, &no_analysis(), 3),
        Err(BootstrapError::UnrepresentablePriority { priority: 20 })
    );
    let app2 = App { hardware_tasks: vec![hw_task("e", 9, vec![bind("PendSV")])], ..app.clone() };
    assert_eq!(
        codegen(&app2, &no_analysis(), 3),
        Err(BootstrapError::UnrepresentablePriority { priority: 9 })
    );
    let app3 = App { hardware_tasks: vec![], ..app };
    assert_eq!(
        codegen(&app3, &no_analysis(), 3),
        Err(BootstrapError::UnrepresentablePriority { priority: 30 })
    );
}

#[test]
fn seeding_pushes_every_slot_once_ascending() {
    let step = seed_queue(&SoftwareTask { name: s("B"), capacity: 5 });
    assert_eq!(step, Step::SeedQueue { task: s("B"), slots: vec![0, 1, 2, 3, 4] });
    let one = seed_queue(&SoftwareTask { name: s("C"), capacity: 1 });
    assert_eq!(one, Step::SeedQueue { task: s("C"), slots: vec![0] });
}

#[test]
fn seeding_follows_task_order() {
    let app = App {
        software_tasks: vec![
            SoftwareTask { name: s("A"), capacity: 2 },
            SoftwareTask { name: s("B"), capacity: 3 },
        ],
        ..empty_app()
    };
    let steps = codegen(&app, &no_analysis(), 3).unwrap();
    assert_eq!(
        steps,
        vec![
            Step::DisableInterrupts,
            Step::SeedQueue { task: s("A"), slots: vec![0, 1] },
            Step::SeedQueue { task: s("B"), slots: vec![0, 1, 2] },
            Step::AcquirePeripherals,
        ]
    );
}

#[test]
fn gated_interrupt_is_wrapped_then_unmasked_again() {
    let app = App {
        hardware_tasks: vec![hw_task("t", 2, vec![bind_if("UART0", "feature_uart")])],
        ..empty_app()
    };
    let steps = codegen(&app, &no_analysis(), 3).unwrap();
    assert_eq!(
        steps[2..].to_vec(),
        vec![
            Step::AssertPriority { priority: 2 },
            Step::Conditional {
                predicate: s("feature_uart"),
                steps: vec![
                    GuardedStep::SetInterruptPriority { name: s("UART0"), hw_priority: 192 },
                    GuardedStep::Unmask { name: s("UART0") },
                ],
            },
            Step::Unmask { name: s("UART0") },
        ]
    );
}

#[test]
fn priority_is_set_before_each_unmask() {
    let app = App {
        hardware_tasks: vec![
            hw_task("t", 2, vec![bind("A"), bind_if("B", "c")]),
            hw_task("u", 1, vec![bind("C")]),
        ],
        ..empty_app()
    };
    let analysis = Analysis { interrupts: vec![DispatcherInterrupt { priority: 4, name: s("D") }] };
    let steps = codegen(&app, &analysis, 3).unwrap();
    let mut flat: Vec<Step> = vec![];
    for st in steps {
        match st {
            Step::Conditional { steps: inner, .. } => {
                for g in inner {
                    flat.push(match g {
                        GuardedStep::SetInterruptPriority { name, hw_priority } => {
                            Step::SetInterruptPriority { name, hw_priority }
                        }
                        GuardedStep::Unmask { name } => Step::Unmask { name },
                        GuardedStep::SetExceptionPriority { name, hw_priority } => {
                            Step::SetExceptionPriority { name, hw_priority }
                        }
                    })
                }
            }
            other => flat.push(other),
        }
    }
    let mut unmasks = 0;
    for (j, st) in flat.iter().enumerate() {
        if let Step::Unmask { name } = st {
            unmasks += 1;
            assert!(flat[..j]
                .iter()
                .any(|p| matches!(p, Step::SetInterruptPriority { name: n, .. } if n == name)));
        }
    }
    assert_eq!(unmasks, 8);
}

#[test]
fn dispatchers_come_before_hardware_tasks() {
    let app = App { hardware_tasks: vec![hw_task("t", 1, vec![bind("X")])], ..empty_app() };
    let analysis = Analysis { interrupts: vec![DispatcherInterrupt { priority: 2, name: s("SWI0") }] };
    let steps = codegen(&app, &analysis, 2).unwrap();
    assert_eq!(
        steps,
        vec![
            Step::DisableInterrupts,
            Step::AcquirePeripherals,
            Step::AssertPriority { priority: 2 },
            Step::SetInterruptPriority { name: s("SWI0"), hw_priority: 128 },
            Step::Unmask { name: s("SWI0") },
            Step::Unmask { name: s("SWI0") },
            Step::AssertPriority { priority: 1 },
            Step::SetInterruptPriority { name: s("X"), hw_priority: 192 },
            Step::Unmask { name: s("X") },
            Step::Unmask { name: s("X") },
        ]
    );
}

#[test]
fn exceptions_get_exception_priority_only() {
    let app = App {
        hardware_tasks: vec![hw_task("t", 3, vec![bind("SysTick"), bind_if("PendSV", "p"), bind("EXTI0")])],
        ..empty_app()
    };
    let steps = codegen(&app, &no_analysis(), 2).unwrap();
    assert_eq!(
        steps,
        vec![
            Step::DisableInterrupts,
            Step::AcquirePeripherals,
            Step::AssertPriority { priority: 3 },
            Step::SetInterruptPriority { name: s("EXTI0"), hw_priority: 64 },
            Step::Unmask { name: s("EXTI0") },
            Step::Unmask { name: s("EXTI0") },
            Step::AssertPriority { priority: 3 },
            Step::SetExceptionPriority { name: s("SysTick"), hw_priority: 64 },
            Step::AssertPriority { priority: 3 },
            Step::Conditional {
                predicate: s("p"),
                steps: vec![GuardedStep::SetExceptionPriority { name: s("PendSV"), hw_priority: 64 }],
            },
        ]
    );
}

#[test]
fn timer_enabled_iff_masking_not_tolerated() {
    let app = App {
        hardware_tasks: vec![hw_task("t", 1, vec![bind_if("X", "gate")])],
        monotonics: vec![timer("TIM2", 2, false), timer("TIM3", 2, true)],
        ..empty_app()
    };
    let steps = codegen(&app, &no_analysis(), 3).unwrap();
    assert!(steps.contains(&Step::EnableTimerInterrupt { name: s("TIM2") }));
    assert!(!steps.contains(&Step::EnableTimerInterrupt { name: s("TIM3") }));
    let n = steps.len();
    assert_eq!(
        steps[n - 5..].to_vec(),
        vec![
            Step::AssertPriority { priority: 2 },
            Step::SetInterruptPriority { name: s("TIM2"), hw_priority: 192 },
            Step::EnableTimerInterrupt { name: s("TIM2") },
            Step::AssertPriority { priority: 2 },
            Step::SetInterruptPriority { name: s("TIM3"), hw_priority: 192 },
        ]
    );
}

#[test]
fn systick_timer_uses_exception_priority() {
    let app = App { monotonics: vec![timer("SysTick", 1, false)], has_idle: false, ..empty_app() };
    let steps = codegen(&app, &no_analysis(), 3).unwrap();
    assert_eq!(
        steps,
        vec![
            Step::DisableInterrupts,
            Step::AcquirePeripherals,
            Step::AssertPriority { priority: 1 },
            Step::SetExceptionPriority { name: s("SysTick"), hw_priority: 224 },
            Step::EnableTimerInterrupt { name: s("SysTick") },
            Step::SleepOnExit,
        ]
    );
}

#[test]
fn sleep_on_exit_only_without_idle() {
    let with_idle = codegen(&empty_app(), &no_analysis(), 3).unwrap();
    assert_eq!(with_idle, vec![Step::DisableInterrupts, Step::AcquirePeripherals]);
    let app = App { has_idle: false, ..empty_app() };
    let without = codegen(&app, &no_analysis(), 3).unwrap();
    assert_eq!(without.iter().filter(|x| **x == Step::SleepOnExit).count(), 1);
    assert_eq!(without.last(), Some(&Step::SleepOnExit));
}

#[test]
fn building_twice_gives_the_same_sequence() {
    let app = App {
        software_tasks: vec![SoftwareTask { name: s("A"), capacity: 3 }],
        hardware_tasks: vec![hw_task("t", 2, vec![bind("X"), bind_if("SVCall", "c")])],
        monotonics: vec![timer("TIM2", 3, false)],
        has_idle: false,
    };
    let analysis = Analysis { interrupts: vec![DispatcherInterrupt { priority: 1, name: s("SWI0") }] };
    assert_eq!(codegen(&app, &analysis, 3), codegen(&app.clone(), &analysis.clone(), 3));
}

#[test]
fn exception_names_are_classified() {
    for n in ["MemoryManagement", "BusFault", "UsageFault", "SecureFault", "SVCall", "DebugMonitor", "PendSV", "SysTick"] {
        assert!(is_exception(&s(n)));
    }
    for n in ["UART0", "", "systick", "SysTick2", "TIM2"] {
        assert!(!is_exception(&s(n)));
    }
    assert!(binds_systick(&s("SysTick")));
    assert!(!binds_systick(&s("PendSV")));
}
