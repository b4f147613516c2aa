use std::cell::RefCell;
use std::rc::Rc;

use init_static::options::Config;
use init_static::options::InitOptions;
use init_static::schedule::Scheduler;
use init_static::schedule::Step;
use init_static::Init;
use init_static::InitError;
use init_static::InitFn;
use init_static::InitStatic;
use init_static::Symbol;

fn symbol(ident: &'static str, line: u32, column: u32) -> &'static Symbol {
    Box::leak(Box::new(Symbol {
        file: "src/main.rs",
        line,
        column,
        module: "main",
        ident,
    }))
}

fn task(symbol: &'static Symbol, init: InitFn, deps: &[&'static Symbol]) -> Init {
    Init {
        symbol,
        init,
        deps: deps.iter().map(|d| Some(*d)).collect(),
    }
}

type Action<'a> = Box<dyn FnMut() -> anyhow::Result<()> + 'a>;

/// Drives a run to its end. A suspending task's action runs when the driver
/// waits; `newest_first` picks which of the begun actions ends first.
fn drive(
    tasks: &Vec<Init>,
    actions: &mut Vec<Action>,
    newest_first: bool,
    log: &mut Vec<String>,
) -> Result<(), InitError> {
    let mut run = Scheduler::new(tasks, InitOptions { debug: false })?;
    let mut begun: Vec<usize> = Vec::new();
    loop {
        match run.next() {
            Step::Run(i) => {
                log.push(format!("run {}", tasks[i].symbol.ident));
                let outcome = actions[i]();
                run = run.complete(i, outcome)?;
                log.push(format!("end {}", tasks[i].symbol.ident));
            }
            Step::Spawn(i) => {
                log.push(format!("begin {}", tasks[i].symbol.ident));
                begun.push(i);
            }
            Step::Wait => {
                let i = if newest_first { begun.pop().unwrap() } else { begun.remove(0) };
                assert!(run.is_running(i));
                let outcome = actions[i]();
                run = run.complete(i, outcome)?;
                log.push(format!("end {}", tasks[i].symbol.ident));
            }
            Step::Finished(result) => return result,
        }
    }
}

fn position(log: &Vec<String>, entry: &str) -> usize {
    log.iter().position(|e| e == entry).unwrap()
}

#[test]
fn pass_main() {
    let foo = symbol("FOO", 8, 12);
    let bar = symbol("BAR", 4, 12);
    let foo_cell = Rc::new(RefCell::new(InitStatic::<u32>::new(foo)));
    let bar_cell = Rc::new(RefCell::new(InitStatic::<u32>::new(bar)));
    let tasks = vec![task(bar, InitFn::Sync, &[foo]), task(foo, InitFn::Sync, &[])];
    let mut actions: Vec<Action> = vec![
        Box::new(|| {
            let value = *foo_cell.borrow().deref();
            InitStatic::init(&mut bar_cell.borrow_mut(), value);
            Ok(())
        }),
        Box::new(|| {
            InitStatic::init(&mut foo_cell.borrow_mut(), "42".parse()?);
            Ok(())
        }),
    ];
    let mut log = Vec::new();
    drive(&tasks, &mut actions, false, &mut log).unwrap();
    assert_eq!(log, vec!["run FOO", "end FOO", "run BAR", "end BAR"]);
    assert_eq!(*bar_cell.borrow().deref(), 42);
}

#[test]
fn immediate_chain_reads_the_cell_of_its_dependency() {
    let foo = symbol("FOO", 1, 1);
    let bar = symbol("BAR", 2, 1);
    let foo_cell = Rc::new(RefCell::new(InitStatic::<u32>::new(foo)));
    let bar_cell = Rc::new(RefCell::new(InitStatic::<u32>::new(bar)));
    let tasks = vec![task(foo, InitFn::Sync, &[]), task(bar, InitFn::Sync, &[foo])];
    let mut actions: Vec<Action> = vec![
        Box::new(|| {
            InitStatic::init(&mut foo_cell.borrow_mut(), 42);
            Ok(())
        }),
        Box::new(|| {
            let value = *foo_cell.borrow().deref() + 1;
            InitStatic::init(&mut bar_cell.borrow_mut(), value);
            Ok(())
        }),
    ];
    let mut log = Vec::new();
    drive(&tasks, &mut actions, false, &mut log).unwrap();
    assert_eq!(*bar_cell.borrow().deref(), 43);
    assert_eq!(*foo_cell.borrow().deref(), 42);
}

#[test]
fn circular_main() {
    let foo: &'static Symbol = Box::leak(Box::new(Symbol {
        file: "init_static/tests/circular.rs",
        line: 6,
        column: 16,
        module: "circular",
        ident: "FOO",
    }));
    let bar: &'static Symbol = Box::leak(Box::new(Symbol {
        file: "init_static/tests/circular.rs",
        line: 7,
        column: 16,
        module: "circular",
        ident: "BAR",
    }));
    let tasks = vec![task(bar, InitFn::Async, &[foo]), task(foo, InitFn::Async, &[bar])];
    let mut actions: Vec<Action> = vec![Box::new(|| Ok(())), Box::new(|| Ok(()))];
    let mut log = Vec::new();
    let e = drive(&tasks, &mut actions, false, &mut log).unwrap_err();
    assert_eq!(
        e.to_string(),
        [
            "Circular dependency detected among:\n",
            "    BAR (at init_static/tests/circular.rs:7:16)\n",
            "    FOO (at init_static/tests/circular.rs:6:16)\n"
        ]
        .join("")
    );
    assert!(log.is_empty());
    match e {
        InitError::Circular { symbols } => {
            assert_eq!(symbols.len(), 2);
            assert!(symbols[0].same(bar));
            assert!(symbols[1].same(foo));
        }
        _ => panic!("a circular dependency was expected"),
    }
}

#[test]
fn fail_main() {
    let foo = symbol("FOO", 4, 12);
    let tasks = vec![task(foo, InitFn::Sync, &[])];
    let mut actions: Vec<Action> = vec![Box::new(|| {
        let _value: u32 = "malformed".parse()?;
        Ok(())
    })];
    let mut log = Vec::new();
    let e = drive(&tasks, &mut actions, false, &mut log).unwrap_err();
    assert_eq!(e.to_string(), "invalid digit found in string");
    assert!(matches!(e, InitError::Execution(_)));
    assert!(e.source().is_some());
    assert_eq!(log, vec!["run FOO"]);
}

#[test]
fn two_providers_of_one_name_are_ambiguous() {
    let x = symbol("X", 3, 5);
    let again = symbol("X", 3, 5);
    let y = symbol("Y", 9, 5);
    let tasks = vec![
        task(y, InitFn::Sync, &[]),
        task(x, InitFn::Sync, &[]),
        task(again, InitFn::Async, &[]),
    ];
    let mut actions: Vec<Action> =
        vec![Box::new(|| Ok(())), Box::new(|| Ok(())), Box::new(|| Ok(()))];
    let mut log = Vec::new();
    let e = drive(&tasks, &mut actions, false, &mut log).unwrap_err();
    assert!(log.is_empty());
    assert_eq!(e.to_string(), "Symbol X (at src/main.rs:3:5) is defined multiple times.");
    match e {
        InitError::Ambiguous { symbol } => assert!(symbol.same(x)),
        _ => panic!("an ambiguous name was expected"),
    }
}

#[test]
fn ambiguity_does_not_depend_on_registration_order() {
    let x = symbol("X", 3, 5);
    let again = symbol("X", 3, 5);
    let y = symbol("Y", 9, 5);
    let orders: Vec<Vec<&'static Symbol>> = vec![
        vec![x, again, y],
        vec![again, x, y],
        vec![x, y, again],
        vec![y, again, x],
    ];
    for order in orders {
        let tasks: Vec<Init> = order.iter().map(|s| task(*s, InitFn::Sync, &[])).collect();
        let e = Scheduler::new(&tasks, InitOptions { debug: false }).err().unwrap();
        assert!(matches!(e, InitError::Ambiguous { symbol } if symbol.same(x)));
    }
}

#[test]
fn same_identifier_at_another_place_is_another_name() {
    let here = symbol("X", 3, 5);
    let there = symbol("X", 4, 5);
    let tasks = vec![task(here, InitFn::Sync, &[]), task(there, InitFn::Sync, &[here])];
    let mut actions: Vec<Action> = vec![Box::new(|| Ok(())), Box::new(|| Ok(()))];
    let mut log = Vec::new();
    drive(&tasks, &mut actions, false, &mut log).unwrap();
    assert_eq!(log, vec!["run X", "end X", "run X", "end X"]);
}

#[test]
fn dependent_waits_for_both_kinds_of_dependency() {
    for newest_first in [false, true] {
        let a = symbol("A", 1, 1);
        let b = symbol("B", 2, 1);
        let c = symbol("C", 3, 1);
        let tasks = vec![
            task(a, InitFn::Sync, &[]),
            task(b, InitFn::Async, &[]),
            task(c, InitFn::Sync, &[a, b]),
        ];
        let mut actions: Vec<Action> =
            vec![Box::new(|| Ok(())), Box::new(|| Ok(())), Box::new(|| Ok(()))];
        let mut log = Vec::new();
        drive(&tasks, &mut actions, newest_first, &mut log).unwrap();
        assert_eq!(log, vec!["run A", "end A", "begin B", "end B", "run C", "end C"]);
        assert!(position(&log, "end A") < position(&log, "run C"));
        assert!(position(&log, "end B") < position(&log, "run C"));
    }
}

#[test]
fn completion_order_of_suspending_tasks_is_free() {
    for newest_first in [false, true] {
        let a = symbol("A", 1, 1);
        let b = symbol("B", 2, 1);
        let c = symbol("C", 3, 1);
        let d = symbol("D", 4, 1);
        let tasks = vec![
            task(a, InitFn::Async, &[]),
            task(b, InitFn::Async, &[]),
            task(c, InitFn::Sync, &[a]),
            task(d, InitFn::Sync, &[b]),
        ];
        let mut actions: Vec<Action> = vec![
            Box::new(|| Ok(())),
            Box::new(|| Ok(())),
            Box::new(|| Ok(())),
            Box::new(|| Ok(())),
        ];
        let mut log = Vec::new();
        drive(&tasks, &mut actions, newest_first, &mut log).unwrap();
        assert_eq!(&log[..2], &["begin A", "begin B"]);
        assert!(position(&log, "end A") < position(&log, "run C"));
        assert!(position(&log, "end B") < position(&log, "run D"));
        if newest_first {
            assert!(position(&log, "run D") < position(&log, "end A"));
        } else {
            assert!(position(&log, "run C") < position(&log, "end B"));
        }
        assert_eq!(log.len(), 8);
    }
}

#[test]
fn a_layer_runs_its_immediate_tasks_before_it_begins_the_suspending_ones() {
    let s1 = symbol("S1", 1, 1);
    let i1 = symbol("I1", 2, 1);
    let s2 = symbol("S2", 3, 1);
    let i2 = symbol("I2", 4, 1);
    let i3 = symbol("I3", 5, 1);
    let tasks = vec![
        task(s1, InitFn::Async, &[]),
        task(i1, InitFn::Sync, &[]),
        task(s2, InitFn::Async, &[]),
        task(i2, InitFn::Sync, &[]),
        task(i3, InitFn::Sync, &[i1]),
    ];
    let mut actions: Vec<Action> = vec![
        Box::new(|| Ok(())),
        Box::new(|| Ok(())),
        Box::new(|| Ok(())),
        Box::new(|| Ok(())),
        Box::new(|| Ok(())),
    ];
    let mut log = Vec::new();
    drive(&tasks, &mut actions, false, &mut log).unwrap();
    assert_eq!(
        log,
        vec![
            "run I1", "end I1", "run I2", "end I2", "begin S1", "begin S2", "run I3", "end I3",
            "end S1", "end S2"
        ]
    );
}

#[test]
fn a_reference_without_provider_blocks_nothing() {
    let a = symbol("A", 1, 1);
    let outside = symbol("ELSEWHERE", 7, 7);
    let tasks = vec![Init {
        symbol: a,
        init: InitFn::Sync,
        deps: vec![Some(outside), None],
    }];
    let mut actions: Vec<Action> = vec![Box::new(|| Ok(()))];
    let mut log = Vec::new();
    drive(&tasks, &mut actions, false, &mut log).unwrap();
    assert_eq!(log, vec!["run A", "end A"]);
}

#[test]
fn the_first_failure_ends_the_run_and_dependents_never_start() {
    let a = symbol("A", 1, 1);
    let b = symbol("B", 2, 1);
    let c = symbol("C", 3, 1);
    let d = symbol("D", 4, 1);
    let tasks = vec![
        task(a, InitFn::Async, &[]),
        task(b, InitFn::Async, &[]),
        task(c, InitFn::Sync, &[a]),
        task(d, InitFn::Sync, &[c]),
    ];
    let mut actions: Vec<Action> = vec![
        Box::new(|| Err(anyhow::Error::msg("first"))),
        Box::new(|| Err(anyhow::Error::msg("second"))),
        Box::new(|| Ok(())),
        Box::new(|| Ok(())),
    ];
    let mut log = Vec::new();
    let e = drive(&tasks, &mut actions, false, &mut log).unwrap_err();
    assert_eq!(e.to_string(), "first");
    assert_eq!(log, vec!["begin A", "begin B"]);
}

#[test]
fn a_failing_immediate_task_stops_its_layer() {
    let a = symbol("A", 1, 1);
    let b = symbol("B", 2, 1);
    let c = symbol("C", 3, 1);
    let tasks = vec![
        task(a, InitFn::Sync, &[]),
        task(b, InitFn::Sync, &[]),
        task(c, InitFn::Async, &[]),
    ];
    let ran_b = RefCell::new(false);
    let mut actions: Vec<Action> = vec![
        Box::new(|| Err(anyhow::Error::msg("broken"))),
        Box::new(|| {
            *ran_b.borrow_mut() = true;
            Ok(())
        }),
        Box::new(|| Ok(())),
    ];
    let mut log = Vec::new();
    let e = drive(&tasks, &mut actions, false, &mut log).unwrap_err();
    drop(actions);
    assert_eq!(e.to_string(), "broken");
    assert_eq!(log, vec!["run A"]);
    assert!(!*ran_b.borrow());
}

#[test]
fn a_task_that_waits_for_itself_is_circular() {
    let a = symbol("A", 1, 1);
    let b = symbol("B", 2, 1);
    let tasks = vec![task(a, InitFn::Sync, &[a]), task(b, InitFn::Sync, &[])];
    let mut actions: Vec<Action> = vec![Box::new(|| Ok(())), Box::new(|| Ok(()))];
    let mut log = Vec::new();
    let e = drive(&tasks, &mut actions, false, &mut log).unwrap_err();
    assert_eq!(log, vec!["run B", "end B"]);
    assert_eq!(
        e.to_string(),
        "Circular dependency detected among:\n    A (at src/main.rs:1:1)\n"
    );
}

#[test]
fn what_hangs_on_a_cycle_is_reported_with_it() {
    let a = symbol("A", 1, 1);
    let b = symbol("B", 2, 1);
    let c = symbol("C", 3, 1);
    let free = symbol("FREE", 4, 1);
    let tasks = vec![
        task(a, InitFn::Sync, &[b]),
        task(free, InitFn::Async, &[]),
        task(b, InitFn::Async, &[a]),
        task(c, InitFn::Sync, &[a, free]),
    ];
    let mut actions: Vec<Action> = vec![
        Box::new(|| Ok(())),
        Box::new(|| Ok(())),
        Box::new(|| Ok(())),
        Box::new(|| Ok(())),
    ];
    let mut log = Vec::new();
    let e = drive(&tasks, &mut actions, false, &mut log).unwrap_err();
    assert_eq!(log, vec!["begin FREE", "end FREE"]);
    match e {
        InitError::Circular { symbols } => {
            let idents: Vec<&str> = symbols.iter().map(|s| s.ident).collect();
            assert_eq!(idents, vec!["A", "B", "C"]);
        }
        _ => panic!("a circular dependency was expected"),
    }
}

#[test]
fn an_empty_task_list_succeeds_at_once() {
    let tasks: Vec<Init> = Vec::new();
    let mut run = Scheduler::new(&tasks, InitOptions { debug: false }).ok().unwrap();
    assert_eq!(run.len(), 0);
    assert!(matches!(run.next(), Step::Finished(Ok(()))));
    assert!(matches!(run.next(), Step::Finished(Ok(()))));
}

#[test]
fn the_scheduler_waits_while_actions_are_running() {
    let a = symbol("A", 1, 1);
    let b = symbol("B", 2, 1);
    let tasks = vec![task(a, InitFn::Async, &[]), task(b, InitFn::Sync, &[a])];
    let mut run = Scheduler::new(&tasks, InitOptions { debug: false }).ok().unwrap();
    assert!(run.is_ready(0));
    assert!(!run.is_ready(1));
    assert!(!run.is_running(0));
    assert!(matches!(run.next(), Step::Spawn(0)));
    assert!(run.is_running(0));
    assert!(!run.is_ready(0));
    assert!(matches!(run.next(), Step::Wait));
    assert!(matches!(run.next(), Step::Wait));
    let mut run = run.complete(0, Ok(())).ok().unwrap();
    assert!(!run.is_running(0));
    assert!(run.is_ready(1));
    assert!(matches!(run.next(), Step::Run(1)));
    assert!(matches!(run.next(), Step::Wait));
    let mut run = run.complete(1, Ok(())).ok().unwrap();
    assert!(matches!(run.next(), Step::Finished(Ok(()))));
    assert!(run.is_sync(1));
    assert!(!run.is_sync(0));
    assert!(run.name(1).same(b));
}

#[test]
fn a_run_takes_the_options_once() {
    let a = symbol("A", 1, 1);
    let tasks = vec![task(a, InitFn::Sync, &[])];
    let mut config = Config::new();
    assert!(!init_static::is_initialized(&config));
    init_static::set_debug(&mut config, true);
    assert!(!init_static::is_initialized(&config));
    let run = Scheduler::start(&mut config, &tasks).ok().unwrap();
    assert!(run.debug());
    assert!(init_static::is_initialized(&config));
}

#[test]
fn a_rejected_task_list_still_uses_up_the_options() {
    let x = symbol("X", 1, 1);
    let tasks = vec![task(x, InitFn::Sync, &[]), task(x, InitFn::Sync, &[])];
    let mut config = Config::default();
    assert!(Scheduler::start(&mut config, &tasks).is_err());
    assert!(init_static::is_initialized(&config));
}

#[test]
fn options_are_taken_as_they_were_set() {
    let mut config = Config::new();
    assert_eq!(config.consume(), InitOptions { debug: false });
    assert!(init_static::is_initialized(&config));
    let mut config = Config::new();
    init_static::set_debug(&mut config, true);
    init_static::set_debug(&mut config, false);
    init_static::set_debug(&mut config, true);
    assert_eq!(config.consume(), InitOptions { debug: true });
    assert!(init_static::is_initialized(&config));
}

#[test]
fn notes_are_written_only_where_the_run_reports() {
    let a: &'static Symbol = Box::leak(Box::new(Symbol {
        file: "src/lib.rs",
        line: 10,
        column: 1,
        module: "demo",
        ident: "A",
    }));
    let b: &'static Symbol = Box::leak(Box::new(Symbol {
        file: "src/lib.rs",
        line: 11,
        column: 1,
        module: "demo",
        ident: "B",
    }));
    let tasks = vec![task(a, InitFn::Sync, &[]), task(b, InitFn::Async, &[])];
    let quiet = Scheduler::new(&tasks, InitOptions { debug: false }).ok().unwrap();
    assert_eq!(quiet.begin_note(0), None);
    assert_eq!(quiet.begin_note(1), None);
    assert_eq!(quiet.end_note(1), None);
    let loud = Scheduler::new(&tasks, InitOptions { debug: true }).ok().unwrap();
    assert_eq!(loud.begin_note(0).unwrap(), "init_static: sync A (at src/lib.rs:10:1)");
    assert_eq!(loud.begin_note(1).unwrap(), "init_static: async begin B (at src/lib.rs:11:1)");
    assert_eq!(loud.end_note(0), None);
    assert_eq!(loud.end_note(1).unwrap(), "init_static: async end B (at src/lib.rs:11:1)");
}
