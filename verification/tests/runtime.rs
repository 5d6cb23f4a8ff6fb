use rquickjs::{
    setup_dump_rc, Call, Context, Countdown, Error, Instance, Interrupt, JSValue, Reply, Step,
    TextBuf,
};

fn run<'a, T>(op: impl Fn(&[Reply]) -> Step<'a, T>, replies: Vec<Reply>) -> (Vec<Call<'a>>, T) {
    let mut calls = Vec::new();
    let mut n = 0;
    loop {
        match op(&replies[..n]) {
            Step::Call(call) => {
                assert!(n < replies.len(), "the operation asks for more than {} replies", n);
                calls.push(call);
                n += 1;
            }
            Step::Done(result) => {
                assert_eq!(n, replies.len(), "the operation is done before the replies are");
                return (calls, result);
            }
        }
    }
}

#[test]
fn a_new_instance_has_one_owner() {
    let (instance, runtime) = Instance::new(7);
    assert!(instance.is_alive());
    assert_eq!(instance.owners(), 1);
    assert_eq!(runtime.id(), 7);
    assert_eq!(runtime.weak().id(), 7);
}

#[test]
fn a_weak_reference_finds_a_living_instance() {
    let (mut instance, runtime) = Instance::new(7);
    let weak = runtime.weak();
    let second = weak.try_ref(&mut instance).expect("the instance is alive");
    assert_eq!(second.id(), 7);
    assert_eq!(instance.owners(), 2);
    assert!(!second.drop(&mut instance));
    assert_eq!(instance.owners(), 1);
    assert!(runtime.drop(&mut instance));
    assert_eq!(instance.owners(), 0);
}

#[test]
fn a_weak_reference_finds_no_instance_once_the_last_owner_is_gone() {
    let (mut instance, runtime) = Instance::new(7);
    let weak = runtime.weak();
    let last = runtime.drop(&mut instance);
    assert!(last);
    assert!(!instance.is_alive());
    assert_eq!(weak.try_ref(&mut instance), None);
    assert_eq!(weak.try_ref(&mut instance), None);
    assert!(!instance.is_alive());
    assert_eq!(instance.owners(), 0);
}

#[test]
fn a_context_keeps_its_instance_alive() {
    let (mut instance, runtime) = Instance::new(7);
    let weak = runtime.weak();
    let context = Context::full(&runtime, &mut instance, 100).unwrap();
    assert_eq!(context.id(), 100);
    assert_eq!(context.runtime().id(), 7);
    assert_eq!(instance.owners(), 2);
    assert!(!runtime.drop(&mut instance));
    assert!(instance.is_alive());
    let again = weak.try_ref(&mut instance).expect("the context keeps the instance alive");
    assert!(!again.drop(&mut instance));
    assert!(context.drop(&mut instance));
    assert!(!instance.is_alive());
    assert_eq!(weak.try_ref(&mut instance), None);
}

#[test]
fn the_record_of_another_instance_is_left_alone() {
    let (mut first, runtime) = Instance::new(7);
    let (mut second, other) = Instance::new(8);
    assert_eq!(runtime.clone(&mut second), None);
    assert_eq!(runtime.weak().try_ref(&mut second), None);
    assert!(Context::full(&runtime, &mut second, 1).is_none());
    assert_eq!(second.owners(), 1);
    let stray = runtime.clone(&mut first).unwrap();
    assert!(!stray.drop(&mut second));
    assert_eq!(second.owners(), 1);
    assert_eq!(first.owners(), 2);
    assert!(other.drop(&mut second));
    assert!(!runtime.drop(&mut first));
}

#[test]
fn contexts_of_one_instance_end_independently() {
    let (mut instance, runtime) = Instance::new(7);
    let first = Context::full(&runtime, &mut instance, 100).unwrap();
    let second = Context::full(&runtime, &mut instance, 101).unwrap();
    assert_eq!(instance.owners(), 3);
    assert!(!first.drop(&mut instance));
    assert_eq!(second.enter().id(), 101);
    assert!(!second.drop(&mut instance));
    assert!(runtime.drop(&mut instance));
}

#[test]
fn dumping_the_atoms_happens_under_the_lock() {
    let (_instance, runtime) = Instance::new(7);
    let (calls, ()) =
        run(|log| runtime.debug_dump_atoms(log), vec![Reply::Unit, Reply::Unit, Reply::Unit]);
    assert_eq!(calls, vec![Call::Lock, Call::DumpAtoms, Call::Unlock]);
}

#[test]
fn the_interrupt_handler_is_installed_under_the_lock() {
    let (_instance, runtime) = Instance::new(7);
    let replies = vec![Reply::Unit, Reply::Unit, Reply::Unit];
    let (calls, ()) = run(|log| runtime.set_interrupt_handler(true, log), replies.clone());
    assert_eq!(calls, vec![Call::Lock, Call::SetInterruptHandler(true), Call::Unlock]);
    let (calls, ()) = run(|log| runtime.set_interrupt_handler(false, log), replies);
    assert_eq!(calls, vec![Call::Lock, Call::SetInterruptHandler(false), Call::Unlock]);
}

#[test]
fn reference_count_tracing_goes_to_the_named_file() {
    let (calls, ()) = run(|log| setup_dump_rc("/tmp/rc.log", log), vec![Reply::Unit]);
    assert_eq!(calls, vec![Call::SetUpRefCountTracing("/tmp/rc.log")]);
}

#[test]
fn the_interrupt_record_remembers_an_abort_until_it_is_taken() {
    let mut interrupt = Interrupt::new();
    assert!(!interrupt.take());
    assert!(!interrupt.poll(false));
    assert!(!interrupt.take());
    assert!(interrupt.poll(true));
    assert!(!interrupt.poll(false));
    assert!(interrupt.take());
    assert!(!interrupt.take());
}

#[test]
fn a_countdown_aborts_after_its_polls_have_passed() {
    let mut handler = Countdown::new(3);
    assert!(!handler.call());
    assert!(!handler.call());
    assert!(!handler.call());
    assert!(handler.call());
    assert!(handler.call());
    let mut at_once = Countdown::new(0);
    assert!(at_once.call());
}

#[test]
fn a_script_that_never_ends_is_interrupted() {
    let (_instance, runtime) = Instance::new(7);
    let context = Context::new(runtime, 100);
    let ctx = context.enter();
    let mut interrupt = Interrupt::new();
    let mut handler = Countdown::new(5);
    let source = "for (;;) {}";
    let mut log = Vec::new();
    let result = loop {
        match ctx.eval(source, &log) {
            Step::Call(Call::Eval(script)) => {
                assert_eq!(script, source);
                let mut polls = 0;
                while !interrupt.poll(handler.call()) {
                    polls += 1;
                }
                assert_eq!(polls, 5);
                log.push(Reply::Value(JSValue::Exception));
            }
            Step::Call(Call::GetException) => {
                log.push(Reply::Value(JSValue::Ref { tag: -1, ptr: 0x3000 }))
            }
            Step::Call(Call::TakeInterrupt) => log.push(Reply::Bool(interrupt.take())),
            Step::Call(Call::FreeValue(_)) => log.push(Reply::Unit),
            Step::Call(call) => panic!("unlooked-for call {:?}", call),
            Step::Done(result) => break result,
        }
    };
    assert_eq!(result, Err(Error::Interrupted));
    assert!(!interrupt.take());
}

#[test]
fn an_evaluation_gives_the_value_of_the_script() {
    let (_instance, runtime) = Instance::new(7);
    let context = Context::new(runtime, 100);
    let ctx = context.enter();
    let (calls, value) = run(|log| ctx.eval("1 + 1", log), vec![Reply::Value(JSValue::Int(2))]);
    assert_eq!(calls, vec![Call::Eval("1 + 1")]);
    assert_eq!(value.unwrap().as_int(), Some(2));
}

#[test]
fn a_throw_is_read_at_once_and_nothing_is_left_for_the_next_call() {
    let (_instance, runtime) = Instance::new(7);
    let context = Context::new(runtime, 100);
    let ctx = context.enter();
    let thrown = JSValue::Ref { tag: -1, ptr: 0x3000 };
    let mut pending = false;
    let mut log = Vec::new();
    let first = loop {
        match ctx.eval("throw new Error('boom')", &log) {
            Step::Call(Call::Eval(_)) => {
                pending = true;
                log.push(Reply::Value(JSValue::Exception));
            }
            Step::Call(Call::GetException) => {
                assert!(pending);
                pending = false;
                log.push(Reply::Value(thrown));
            }
            Step::Call(Call::TakeInterrupt) => log.push(Reply::Bool(false)),
            Step::Call(Call::ToCStringLen(value)) => {
                assert!(!pending);
                assert_eq!(value, thrown);
                log.push(Reply::Text(Some(TextBuf { ptr: 1, text: "Error: boom".to_string() })));
            }
            Step::Call(Call::FreeCString(_)) | Step::Call(Call::FreeValue(_)) => {
                log.push(Reply::Unit)
            }
            Step::Call(call) => panic!("unlooked-for call {:?}", call),
            Step::Done(result) => break result,
        }
    };
    assert_eq!(first, Err(Error::Exception("Error: boom".to_string())));
    assert!(!pending);
    let (calls, second) = run(|log| ctx.eval("2", log), vec![Reply::Value(JSValue::Int(2))]);
    assert_eq!(calls, vec![Call::Eval("2")]);
    assert_eq!(second.unwrap().as_int(), Some(2));
}

#[test]
fn one_job_runs_under_the_lock() {
    let (_instance, runtime) = Instance::new(7);
    let replies = vec![Reply::Unit, Reply::Int(1), Reply::Unit];
    let (calls, ran) = run(|log| runtime.execute_pending_job(log), replies);
    assert_eq!(calls, vec![Call::Lock, Call::ExecutePendingJob, Call::Unlock]);
    assert_eq!(ran, Ok(true));
    let replies = vec![Reply::Unit, Reply::Int(0), Reply::Unit];
    let (calls, ran) = run(|log| runtime.execute_pending_job(log), replies);
    assert_eq!(calls, vec![Call::Lock, Call::ExecutePendingJob, Call::Unlock]);
    assert_eq!(ran, Ok(false));
}

#[test]
fn a_job_that_throws_is_a_job_failure_and_the_lock_is_released() {
    let (_instance, runtime) = Instance::new(7);
    let thrown = JSValue::Ref { tag: -1, ptr: 0x3000 };
    let replies = vec![
        Reply::Unit,
        Reply::Int(-1),
        Reply::Value(thrown),
        Reply::Bool(false),
        Reply::Text(Some(TextBuf { ptr: 0x4000, text: "Error: late".to_string() })),
        Reply::Unit,
        Reply::Unit,
        Reply::Unit,
    ];
    let (calls, ran) = run(|log| runtime.execute_pending_job(log), replies);
    assert_eq!(
        calls,
        vec![
            Call::Lock,
            Call::ExecutePendingJob,
            Call::GetException,
            Call::TakeInterrupt,
            Call::ToCStringLen(thrown),
            Call::FreeCString(0x4000),
            Call::FreeValue(thrown),
            Call::Unlock,
        ]
    );
    assert_eq!(ran, Err(Error::Job("Error: late".to_string())));
}

#[test]
fn a_job_that_is_interrupted_stays_interrupted() {
    let (_instance, runtime) = Instance::new(7);
    let thrown = JSValue::Ref { tag: -1, ptr: 0x3000 };
    let replies = vec![
        Reply::Unit,
        Reply::Int(-1),
        Reply::Value(thrown),
        Reply::Bool(true),
        Reply::Unit,
        Reply::Unit,
    ];
    let (calls, ran) = run(|log| runtime.execute_pending_job(log), replies);
    assert_eq!(calls.last(), Some(&Call::Unlock));
    assert_eq!(calls.len(), 6);
    assert_eq!(ran, Err(Error::Interrupted));
}

#[test]
fn draining_runs_jobs_until_the_queue_is_empty() {
    let (_instance, runtime) = Instance::new(7);
    let mut replies = Vec::new();
    for status in [1, 1, 1, 0] {
        replies.extend([Reply::Unit, Reply::Int(status), Reply::Unit]);
    }
    let (calls, result) = run(|log| runtime.run_pending_jobs(log), replies);
    assert_eq!(result, Ok(()));
    assert_eq!(calls.len(), 12);
    for job in calls.chunks(3) {
        assert_eq!(job, [Call::Lock, Call::ExecutePendingJob, Call::Unlock]);
    }
}

#[test]
fn draining_an_empty_queue_asks_once() {
    let (_instance, runtime) = Instance::new(7);
    let replies = vec![Reply::Unit, Reply::Int(0), Reply::Unit];
    let (calls, result) = run(|log| runtime.run_pending_jobs(log), replies);
    assert_eq!(calls, vec![Call::Lock, Call::ExecutePendingJob, Call::Unlock]);
    assert_eq!(result, Ok(()));
}

#[test]
fn draining_stops_at_the_job_that_fails() {
    let (_instance, runtime) = Instance::new(7);
    let replies = vec![
        Reply::Unit,
        Reply::Int(1),
        Reply::Unit,
        Reply::Unit,
        Reply::Int(-1),
        Reply::Value(JSValue::Uninitialized),
        Reply::Bool(false),
        Reply::Unit,
    ];
    let (calls, result) = run(|log| runtime.run_pending_jobs(log), replies);
    assert_eq!(
        calls,
        vec![
            Call::Lock,
            Call::ExecutePendingJob,
            Call::Unlock,
            Call::Lock,
            Call::ExecutePendingJob,
            Call::GetException,
            Call::TakeInterrupt,
            Call::Unlock,
        ]
    );
    assert_eq!(result, Err(Error::Unknown));
}
