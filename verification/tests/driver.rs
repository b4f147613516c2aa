use std::cell::RefCell;
use std::future::Future;
use std::pin::Pin;
use std::rc::Rc;
use std::task::Context;
use std::task::Poll;

use futures_executor::block_on;
use futures_util::stream::FuturesUnordered;
use futures_util::StreamExt;

use init_static::options::InitOptions;
use init_static::schedule::Scheduler;
use init_static::schedule::Step;
use init_static::Init;
use init_static::InitError;
use init_static::InitFn;
use init_static::Symbol;

type Log = Rc<RefCell<Vec<String>>>;
type Job = Box<dyn Fn() -> Pin<Box<dyn Future<Output = anyhow::Result<()>>>>>;

/// A future that is pending for the given number of polls.
struct Pause(u32);

impl Future for Pause {
    type Output = ();

    fn poll(mut self: Pin<&mut Self>, cx: &mut Context<'_>) -> Poll<()> {
        if self.0 == 0 {
            Poll::Ready(())
        } else {
            self.0 -= 1;
            cx.waker().wake_by_ref();
            Poll::Pending
        }
    }
}

fn name(ident: &'static str, line: u32) -> &'static Symbol {
    Box::leak(Box::new(Symbol { file: "src/jobs.rs", line, column: 1, module: "jobs", ident }))
}

fn job(log: &Log, ident: &'static str, pauses: u32, fails: bool) -> Job {
    let log = log.clone();
    Box::new(move || {
        let log = log.clone();
        Box::pin(async move {
            log.borrow_mut().push(format!("begin {ident}"));
            Pause(pauses).await;
            log.borrow_mut().push(format!("end {ident}"));
            if fails {
                Err(anyhow::Error::msg(format!("{ident} failed")))
            } else {
                Ok(())
            }
        })
    })
}

/// Drives a run as a program does: immediate actions run to their end where
/// they are dispatched, suspending ones run concurrently.
async fn run_all(tasks: &Vec<Init>, jobs: &Vec<Job>) -> Result<(), InitError> {
    let mut run = Scheduler::new(tasks, InitOptions { debug: false })?;
    let mut begun = FuturesUnordered::new();
    loop {
        match run.next() {
            Step::Run(i) => {
                let outcome = jobs[i]().await;
                run = run.complete(i, outcome)?;
            }
            Step::Spawn(i) => {
                let action = jobs[i]();
                begun.push(async move { (i, action.await) });
            }
            Step::Wait => {
                let (i, outcome) = begun.next().await.unwrap();
                assert!(run.is_running(i));
                run = run.complete(i, outcome)?;
            }
            Step::Finished(result) => return result,
        }
    }
}

fn index(log: &Log, entry: &str) -> usize {
    log.borrow().iter().position(|e| e == entry).unwrap()
}

#[test]
fn suspending_tasks_run_concurrently_and_dependents_wait() {
    let log: Log = Rc::new(RefCell::new(Vec::new()));
    let slow = name("SLOW", 1);
    let fast = name("FAST", 2);
    let last = name("LAST", 3);
    let tasks = vec![
        Init { symbol: slow, init: InitFn::Async, deps: vec![] },
        Init { symbol: fast, init: InitFn::Async, deps: vec![] },
        Init { symbol: last, init: InitFn::Sync, deps: vec![Some(slow), Some(fast)] },
    ];
    let jobs = vec![job(&log, "SLOW", 5, false), job(&log, "FAST", 1, false), job(&log, "LAST", 0, false)];
    block_on(run_all(&tasks, &jobs)).unwrap();
    assert_eq!(log.borrow().len(), 6);
    assert!(index(&log, "begin FAST") < index(&log, "end SLOW"));
    assert!(index(&log, "end FAST") < index(&log, "end SLOW"));
    assert!(index(&log, "end SLOW") < index(&log, "begin LAST"));
    assert!(index(&log, "end FAST") < index(&log, "begin LAST"));
}

#[test]
fn the_first_action_to_fail_gives_the_error() {
    let log: Log = Rc::new(RefCell::new(Vec::new()));
    let slow = name("SLOW", 1);
    let fast = name("FAST", 2);
    let next = name("NEXT", 3);
    let tasks = vec![
        Init { symbol: slow, init: InitFn::Async, deps: vec![] },
        Init { symbol: fast, init: InitFn::Async, deps: vec![] },
        Init { symbol: next, init: InitFn::Sync, deps: vec![Some(fast)] },
    ];
    let jobs = vec![job(&log, "SLOW", 9, true), job(&log, "FAST", 1, true), job(&log, "NEXT", 0, false)];
    let e = block_on(run_all(&tasks, &jobs)).unwrap_err();
    assert_eq!(e.to_string(), "FAST failed");
    assert!(!log.borrow().iter().any(|e| e == "begin NEXT"));
    assert!(!log.borrow().iter().any(|e| e == "end SLOW"));
}

#[test]
fn suspending_tasks_that_wait_for_each_other_never_begin() {
    let log: Log = Rc::new(RefCell::new(Vec::new()));
    let foo = name("FOO", 6);
    let bar = name("BAR", 7);
    let tasks = vec![
        Init { symbol: foo, init: InitFn::Async, deps: vec![Some(bar)] },
        Init { symbol: bar, init: InitFn::Async, deps: vec![Some(foo)] },
    ];
    let jobs = vec![job(&log, "FOO", 0, false), job(&log, "BAR", 0, false)];
    let e = block_on(run_all(&tasks, &jobs)).unwrap_err();
    assert!(log.borrow().is_empty());
    match e {
        InitError::Circular { symbols } => {
            assert_eq!(symbols.len(), 2);
            assert!(symbols.iter().any(|s| s.same(foo)));
            assert!(symbols.iter().any(|s| s.same(bar)));
        }
        _ => panic!("a circular dependency was expected"),
    }
}

/// A small generator of repeatable numbers.
struct Numbers(u64);

impl Numbers {
    fn below(&mut self, bound: usize) -> usize {
        self.0 = self.0.wrapping_mul(6364136223846793005).wrapping_add(1442695040888963407);
        ((self.0 >> 33) as usize) % bound
    }
}

#[test]
fn every_task_of_an_acyclic_graph_runs_once_after_its_dependencies() {
    let mut numbers = Numbers(7);
    for round in 0..60 {
        let n = 1 + numbers.below(9);
        let names: Vec<&'static Symbol> =
            (0..n).map(|i| name(Box::leak(format!("T{i}").into_boxed_str()), i as u32)).collect();
        // a hidden order makes the graph acyclic; registration order is another
        let mut rank: Vec<usize> = (0..n).collect();
        for i in (1..n).rev() {
            rank.swap(i, numbers.below(i + 1));
        }
        let mut tasks = Vec::new();
        let mut waits: Vec<Vec<usize>> = Vec::new();
        for i in 0..n {
            let mut deps = Vec::new();
            let mut list = Vec::new();
            for d in 0..n {
                if rank[d] < rank[i] && numbers.below(3) == 0 {
                    deps.push(Some(names[d]));
                    list.push(d);
                }
            }
            if numbers.below(4) == 0 {
                deps.push(None);
            }
            let init = if numbers.below(2) == 0 { InitFn::Sync } else { InitFn::Async };
            tasks.push(Init { symbol: names[i], init, deps });
            waits.push(list);
        }
        let mut run = Scheduler::new(&tasks, InitOptions { debug: false }).ok().unwrap();
        let mut started = vec![false; n];
        let mut completed = vec![false; n];
        let mut running: Vec<usize> = Vec::new();
        let mut steps = 0;
        loop {
            steps += 1;
            assert!(steps <= 3 * n + 1, "round {round}");
            match run.next() {
                Step::Run(i) | Step::Spawn(i) => {
                    assert!(!started[i]);
                    assert!(waits[i].iter().all(|d| completed[*d]));
                    started[i] = true;
                    if run.is_sync(i) {
                        completed[i] = true;
                        run = run.complete(i, Ok(())).ok().unwrap();
                    } else {
                        running.push(i);
                    }
                }
                Step::Wait => {
                    let i = running.remove(numbers.below(running.len()));
                    assert!(!completed[i]);
                    completed[i] = true;
                    run = run.complete(i, Ok(())).ok().unwrap();
                }
                Step::Finished(result) => {
                    assert!(result.is_ok(), "round {round}");
                    break;
                }
            }
        }
        assert!(started.iter().all(|s| *s));
        assert!(completed.iter().all(|c| *c));
        assert!(running.is_empty());
    }
}
