use futures::lock::Mutex as AsyncMutex;
use parking_lot::Mutex;
use std::future::Future;
use std::pin::Pin;
use std::sync::Arc;
use std::task::Context;
use std::task::Poll;
use std::task::Wake;
use std::task::Waker;
use timewrap::as_ptr;
use timewrap::At;
use timewrap::PauseWhen;
use timewrap::Timewrap;

type Task = Pin<Box<dyn Future<Output = ()> + Send>>;

struct Shared<S> {
    core: Mutex<Timewrap<u64, (), Task>>,
    state: S,
}

struct Handle<S>(Arc<Shared<S>>);

impl<S> Clone for Handle<S> {
    fn clone(&self) -> Self {
        Handle(self.0.clone())
    }
}

struct Until<S> {
    shared: Arc<Shared<S>>,
    wait: At<u64>,
}

impl<S> Future for Until<S> {
    type Output = ();

    fn poll(self: Pin<&mut Self>, _: &mut Context<'_>) -> Poll<()> {
        let mut core = self.shared.core.lock();
        self.wait.poll(&mut *core)
    }
}

struct Requeue<S> {
    shared: Arc<Shared<S>>,
    id: usize,
}

impl<S: Send + Sync + 'static> Wake for Requeue<S> {
    fn wake(self: Arc<Self>) {
        self.shared.core.lock().wake(self.id);
    }
}

impl<S: Send + Sync + 'static> Handle<S> {
    fn new(state: S) -> Self {
        Handle(Arc::new(Shared { core: Mutex::new(Timewrap::new()), state }))
    }

    fn at(&self, time: u64) -> Until<S> {
        let wait = self.0.core.lock().at(time);
        Until { shared: self.0.clone(), wait }
    }

    fn delay(&self, span: u64) -> Until<S> {
        let wait = self.0.core.lock().delay(span);
        Until { shared: self.0.clone(), wait }
    }

    fn current_time(&self) -> u64 {
        self.0.core.lock().current_time()
    }

    fn state(&self) -> &S {
        &self.0.state
    }

    fn spawn(&self, task: impl Future<Output = ()> + Send + 'static) {
        self.0.core.lock().spawn(Box::pin(task));
    }

    fn spawn_at(&self, task: impl Future<Output = ()> + Send + 'static, time: u64) {
        self.0.core.lock().spawn_at(time, Box::pin(task));
    }

    fn drive(&self, horizon: u64) {
        loop {
            let wake = self.0.core.lock().drive(horizon);
            let mut frame = match wake {
                timewrap::Wake::Idle => return,
                timewrap::Wake::Resume(frame) => frame,
                timewrap::Wake::Orphan(id) => panic!("a wake-up for {} found no task", id),
            };
            let id = as_ptr(&frame);
            let waker = Waker::from(Arc::new(Requeue { shared: self.0.clone(), id }));
            let mut context = Context::from_waker(&waker);
            let mut wrapper =
                PauseWhen(frame.get_mut().as_mut(), || self.0.core.lock().take_by_time());
            let inner = wrapper.0.as_mut().poll(&mut context);
            let pause = wrapper.poll(inner);
            self.0.core.lock().settle(frame, pause);
        }
    }
}

type Log = Mutex<Vec<String>>;

fn log() -> Handle<Log> {
    Handle::new(Mutex::new(Vec::new()))
}

fn record(handle: &Handle<Log>, line: &str) {
    handle.state().lock().push(String::from(line));
}

fn lines(handle: &Handle<Log>) -> Vec<String> {
    handle.state().lock().clone()
}

#[test]
fn it_works() {
    let timewrap = Handle::new(AsyncMutex::new(String::new()));
    let outer = timewrap.clone();
    timewrap.spawn(async move {
        let inner = outer.clone();
        outer.spawn(async move {
            for i in 0..3 {
                inner.delay(10).await;
                let mut result = inner.state().lock().await;
                result.push_str(&format!("a{}", i));
            }
        });
        outer.delay(5).await;
        for i in 0..3 {
            outer.delay(10).await;
            let mut result = outer.state().lock().await;
            result.push_str(&format!("b{}", i));
        }
    });
    timewrap.drive(35);
    let result = timewrap.state().try_lock().map(|result| result.clone());
    assert_eq!(result, Some(String::from("a0b0a1b1a2b2")));
    assert_eq!(timewrap.current_time(), 35);
}

#[test]
fn single_delayed_print() {
    let timewrap = log();
    let task = timewrap.clone();
    timewrap.spawn(async move {
        task.delay(10).await;
        record(&task, "x");
    });
    timewrap.drive(20);
    assert_eq!(lines(&timewrap), vec!["x"]);
    assert_eq!(timewrap.current_time(), 20);
}

#[test]
fn two_interleaved_tasks() {
    let timewrap = Handle::new(Mutex::new(String::new()));
    let a = timewrap.clone();
    timewrap.spawn(async move {
        for i in 0..3 {
            a.delay(10).await;
            a.state().lock().push_str(&format!("a{}", i));
        }
    });
    let b = timewrap.clone();
    timewrap.spawn(async move {
        b.delay(5).await;
        for i in 0..3 {
            b.delay(10).await;
            b.state().lock().push_str(&format!("b{}", i));
        }
    });
    timewrap.drive(35);
    assert_eq!(timewrap.state().lock().as_str(), "a0b0a1b1a2b2");
    assert_eq!(timewrap.current_time(), 35);
}

#[test]
fn nested_spawn() {
    let timewrap = log();
    let outer = timewrap.clone();
    timewrap.spawn(async move {
        let inner = outer.clone();
        outer.spawn(async move {
            inner.delay(50).await;
            record(&inner, "inner");
        });
        outer.delay(100).await;
        record(&outer, "outer");
    });
    timewrap.drive(200);
    assert_eq!(lines(&timewrap), vec!["inner", "outer"]);
    assert_eq!(timewrap.current_time(), 200);
}

#[test]
fn resumption_at_exact_horizon() {
    let timewrap = log();
    let task = timewrap.clone();
    timewrap.spawn(async move {
        task.delay(100).await;
        record(&task, "hit");
    });
    timewrap.drive(100);
    assert_eq!(lines(&timewrap), vec!["hit"]);
    assert_eq!(timewrap.current_time(), 100);
}

#[test]
fn resumption_after_the_horizon_waits_for_the_next_drive() {
    let timewrap = log();
    let task = timewrap.clone();
    timewrap.spawn(async move {
        task.delay(100).await;
        record(&task, "hit");
    });
    timewrap.drive(99);
    assert!(lines(&timewrap).is_empty());
    assert_eq!(timewrap.current_time(), 99);
    timewrap.drive(100);
    assert_eq!(lines(&timewrap), vec!["hit"]);
}

#[test]
fn non_time_wait_does_not_requeue() {
    let timewrap = log();
    let mutex = Arc::new(AsyncMutex::new(()));
    let a = timewrap.clone();
    let held = mutex.clone();
    timewrap.spawn(async move {
        let guard = held.lock().await;
        a.delay(10).await;
        drop(guard);
        record(&a, &format!("A at {}", a.current_time()));
    });
    let b = timewrap.clone();
    let wanted = mutex.clone();
    timewrap.spawn(async move {
        b.delay(5).await;
        record(&b, &format!("B asks at {}", b.current_time()));
        let _guard = wanted.lock().await;
        record(&b, &format!("B at {}", b.current_time()));
    });
    timewrap.drive(50);
    assert_eq!(lines(&timewrap), vec!["B asks at 5", "A at 10", "B at 10"]);
    assert_eq!(timewrap.current_time(), 50);
}

#[test]
fn task_that_nothing_wakes_stays_dormant() {
    let timewrap = log();
    let stuck = timewrap.clone();
    timewrap.spawn(async move {
        record(&stuck, "started");
        std::future::pending::<()>().await;
        record(&stuck, "never");
    });
    let other = timewrap.clone();
    timewrap.spawn(async move {
        other.delay(7).await;
        record(&other, "other");
    });
    timewrap.drive(30);
    assert_eq!(lines(&timewrap), vec!["started", "other"]);
    assert_eq!(timewrap.current_time(), 30);
    timewrap.drive(60);
    assert_eq!(lines(&timewrap), vec!["started", "other"]);
    assert_eq!(timewrap.current_time(), 60);
}

#[test]
fn delay_returns_at_the_instant_asked_for() {
    let timewrap = log();
    for (start, span) in [(0u64, 7u64), (3, 0), (3, 4), (11, 30)] {
        let task = timewrap.clone();
        timewrap.spawn_at(
            async move {
                let before = task.current_time();
                task.delay(span).await;
                let after = task.current_time();
                record(&task, &format!("{}+{}={}", before, span, after));
            },
            start,
        );
    }
    timewrap.drive(100);
    let mut seen = lines(&timewrap);
    seen.sort();
    assert_eq!(seen, vec!["0+7=7", "11+30=41", "3+0=3", "3+4=7"]);
}

#[test]
fn spawned_task_starts_at_its_instant() {
    let timewrap = log();
    for start in [17u64, 4, 40, 4] {
        let task = timewrap.clone();
        timewrap.spawn_at(
            async move {
                record(&task, &format!("{} starts at {}", start, task.current_time()));
            },
            start,
        );
    }
    let late = timewrap.clone();
    timewrap.spawn_at(
        async move {
            let child = late.clone();
            late.spawn(async move {
                record(&child, &format!("child starts at {}", child.current_time()));
            });
            late.delay(1).await;
        },
        25,
    );
    timewrap.drive(39);
    assert_eq!(
        lines(&timewrap),
        vec!["4 starts at 4", "4 starts at 4", "17 starts at 17", "child starts at 25"]
    );
    timewrap.drive(40);
    assert_eq!(lines(&timewrap).len(), 5);
    assert_eq!(lines(&timewrap)[4], "40 starts at 40");
}

#[test]
fn clock_seen_by_tasks_never_runs_back() {
    let timewrap = Handle::new(Mutex::new(Vec::<u64>::new()));
    for (start, step) in [(0u64, 3u64), (1, 5), (2, 7), (20, 1)] {
        let task = timewrap.clone();
        timewrap.spawn_at(
            async move {
                for _ in 0..6 {
                    task.state().lock().push(task.current_time());
                    task.delay(step).await;
                }
                task.state().lock().push(task.current_time());
            },
            start,
        );
    }
    timewrap.drive(30);
    let seen = timewrap.state().lock().clone();
    assert!(seen.len() > 20);
    assert!(seen.windows(2).all(|pair| pair[0] <= pair[1]));
    assert!(seen.iter().all(|&time| time <= 30));
    assert_eq!(timewrap.current_time(), 30);
}

#[test]
fn at_an_earlier_instant_does_not_wait() {
    let timewrap = log();
    let task = timewrap.clone();
    timewrap.spawn(async move {
        task.at(20).await;
        record(&task, &format!("first at {}", task.current_time()));
        task.at(10).await;
        record(&task, &format!("second at {}", task.current_time()));
        task.delay(0).await;
        record(&task, &format!("third at {}", task.current_time()));
    });
    timewrap.drive(20);
    assert_eq!(lines(&timewrap), vec!["first at 20", "second at 20", "third at 20"]);
}
