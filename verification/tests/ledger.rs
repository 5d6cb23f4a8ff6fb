use rquickjs::{Atom, Call, Context, Error, Instance, JSValue, Reply, Step, TextBuf, Value};
use std::collections::HashMap;

/// An engine that does nothing but keep count: of the references the host holds, of the
/// buffers it has on loan, and of whether an exception is pending. It panics at a call that
/// gives back what is not held, and at a call made across a pending exception.
struct Counting {
    atoms: HashMap<u32, u32>,
    values: HashMap<u64, u32>,
    buffers: HashMap<u64, u32>,
    pending: bool,
    next: u64,
    fail: Option<usize>,
    calls: usize,
}

impl Counting {
    fn new() -> Counting {
        Counting {
            atoms: HashMap::new(),
            values: HashMap::new(),
            buffers: HashMap::new(),
            pending: false,
            next: 0x1000,
            fail: None,
            calls: 0,
        }
    }

    /// The same engine, which fails the call with this number, counted from zero.
    fn failing_at(call: usize) -> Counting {
        Counting { fail: Some(call), ..Counting::new() }
    }

    fn fresh(&mut self) -> JSValue {
        self.next += 0x10;
        let ptr = self.next;
        *self.values.entry(ptr).or_insert(0) += 1;
        JSValue::Ref { tag: -7, ptr }
    }

    fn take(map: &mut HashMap<u64, u32>, key: u64) {
        let count = map.get_mut(&key).expect("what is given back is held");
        assert!(*count > 0, "what is given back is held");
        *count -= 1;
    }

    fn answer(&mut self, call: Call) -> Reply {
        let fails = self.fail == Some(self.calls);
        self.calls += 1;
        match call {
            Call::GetException => {
                self.pending = false;
                Reply::Value(self.fresh())
            }
            Call::TakeInterrupt => Reply::Bool(false),
            Call::FreeAtom(atom) => {
                let count = self.atoms.get_mut(&atom).expect("the atom is held");
                assert!(*count > 0, "the atom is held");
                *count -= 1;
                Reply::Unit
            }
            Call::FreeValue(JSValue::Ref { ptr, .. }) => {
                Counting::take(&mut self.values, ptr);
                Reply::Unit
            }
            Call::FreeValue(_) => Reply::Unit,
            Call::FreeCString(ptr) => {
                Counting::take(&mut self.buffers, ptr);
                Reply::Unit
            }
            call => {
                assert!(!self.pending, "{:?} is made across a pending exception", call);
                match call {
                    Call::NewAtomUInt32(_) | Call::NewAtomLen(_) | Call::ValueToAtom(_) => {
                        if fails {
                            self.pending = true;
                            Reply::Atom(0)
                        } else {
                            *self.atoms.entry(300).or_insert(0) += 1;
                            Reply::Atom(300)
                        }
                    }
                    Call::DupAtom(atom) => {
                        assert!(self.atoms[&atom] > 0);
                        *self.atoms.get_mut(&atom).unwrap() += 1;
                        Reply::Atom(atom)
                    }
                    Call::DupValue(value) => {
                        if let JSValue::Ref { ptr, .. } = value {
                            assert!(self.values[&ptr] > 0);
                            *self.values.get_mut(&ptr).unwrap() += 1;
                        }
                        Reply::Value(value)
                    }
                    Call::AtomToString(atom) => {
                        assert!(self.atoms[&atom] > 0);
                        if fails {
                            self.pending = true;
                            Reply::Value(JSValue::Exception)
                        } else {
                            Reply::Value(self.fresh())
                        }
                    }
                    Call::Eval(_) | Call::NewStringLen(_) => {
                        if fails {
                            self.pending = true;
                            Reply::Value(JSValue::Exception)
                        } else {
                            Reply::Value(self.fresh())
                        }
                    }
                    Call::ToCStringLen(value) => {
                        if let JSValue::Ref { ptr, .. } = value {
                            assert!(self.values[&ptr] > 0);
                        }
                        if fails {
                            self.pending = true;
                            Reply::Text(None)
                        } else {
                            self.next += 0x10;
                            *self.buffers.entry(self.next).or_insert(0) += 1;
                            Reply::Text(Some(TextBuf { ptr: self.next, text: "text".to_string() }))
                        }
                    }
                    call => panic!("unlooked-for call {:?}", call),
                }
            }
        }
    }

    fn run<'a, T>(&mut self, op: impl Fn(&[Reply]) -> Step<'a, T>) -> T {
        let mut log = Vec::new();
        loop {
            match op(&log) {
                Step::Call(call) => log.push(self.answer(call)),
                Step::Done(result) => return result,
            }
        }
    }

    fn held(&self) -> u32 {
        self.atoms.values().sum::<u32>()
            + self.values.values().sum::<u32>()
            + self.buffers.values().sum::<u32>()
    }
}

fn context() -> Context {
    let (_instance, runtime) = Instance::new(1);
    Context::new(runtime, 10)
}

#[test]
fn clones_and_drops_balance() {
    let context = context();
    let ctx = context.enter();
    for n in [0usize, 1, 2, 17] {
        let mut engine = Counting::new();
        let atom = engine.run(|log| Atom::from_str(ctx, "key", log)).unwrap();
        assert_eq!(engine.atoms[&300], 1);
        let mut handles = vec![atom];
        for made in 1..=n {
            let copy = engine.run(|log| handles[0].clone(log));
            handles.push(copy);
            assert_eq!(engine.atoms[&300] as usize, 1 + made);
        }
        let mut left = handles.len() as u32;
        for handle in handles {
            assert_eq!(engine.atoms[&300], left);
            assert!(left > 0);
            engine.answer(handle.drop());
            left -= 1;
        }
        assert_eq!(engine.atoms[&300], 0);
        assert_eq!(engine.held(), 0);
    }
}

#[test]
fn clones_and_drops_in_any_order_leave_clones_less_drops() {
    let context = context();
    let ctx = context.enter();
    let mut engine = Counting::new();
    let atom = engine.run(|log| Atom::from_u32(ctx, 1, log)).unwrap();
    let mut handles = vec![atom];
    let mut clones = 0;
    let mut drops = 0;
    for step in [true, true, false, true, false, false, true, true, false] {
        if step {
            let copy = engine.run(|log| handles[0].clone(log));
            handles.push(copy);
            clones += 1;
        } else {
            let handle = handles.pop().unwrap();
            engine.answer(handle.drop());
            drops += 1;
        }
        assert_eq!(engine.atoms[&300], 1 + clones - drops);
    }
    assert_eq!(engine.atoms[&300], 2);
}

#[test]
fn clones_and_drops_of_a_value_balance() {
    let context = context();
    let ctx = context.enter();
    let mut engine = Counting::new();
    let value = engine.run(|log| ctx.eval("({})", log)).unwrap();
    let ptr = match value.as_js_value() {
        JSValue::Ref { ptr, .. } => ptr,
        other => panic!("{:?} is no heap value", other),
    };
    let first = engine.run(|log| value.clone(log));
    let second = engine.run(|log| first.clone(log));
    assert_eq!(engine.values[&ptr], 3);
    engine.answer(value.drop());
    engine.answer(second.drop());
    assert_eq!(engine.values[&ptr], 1);
    engine.answer(first.drop());
    assert_eq!(engine.values[&ptr], 0);
    let number = Value::new_int(ctx, 5);
    let copy = engine.run(|log| number.clone(log));
    engine.answer(number.drop());
    engine.answer(copy.drop());
    assert_eq!(engine.held(), 0);
}

#[test]
fn reading_a_text_leaves_nothing_behind_whichever_call_fails() {
    let context = context();
    let ctx = context.enter();
    for fail in [None, Some(1), Some(2), Some(3), Some(4), Some(5)] {
        let mut engine = Counting::new();
        engine.fail = fail;
        let atom = engine.run(|log| Atom::from_str(ctx, "key", log)).unwrap();
        let result = engine.run(|log| atom.to_string(log));
        match fail {
            None | Some(3) | Some(4) | Some(5) => assert_eq!(result, Ok("text".to_string())),
            Some(1) => assert_eq!(result, Err(Error::Exception("text".to_string()))),
            _ => assert_eq!(result, Err(Error::Unknown)),
        }
        assert!(!engine.pending);
        assert_eq!(engine.atoms[&300], 1);
        assert_eq!(engine.held(), 1);
        engine.answer(atom.drop());
        assert_eq!(engine.held(), 0);
    }
}

#[test]
fn a_failed_constructor_leaves_nothing_behind() {
    let context = context();
    let ctx = context.enter();
    let mut engine = Counting::failing_at(0);
    assert_eq!(engine.run(|log| Atom::from_u32(ctx, 7, log)), Err(Error::Unknown));
    assert!(!engine.pending);
    assert_eq!(engine.held(), 0);
    let mut engine = Counting::failing_at(0);
    let value = Value::new_int(ctx, 1);
    let result = engine.run(|log| Atom::from_value(ctx, &value, log));
    assert_eq!(result, Err(Error::Exception("text".to_string())));
    assert!(!engine.pending);
    assert_eq!(engine.held(), 0);
}

#[test]
fn a_raw_atom_looked_up_by_name_holds_no_reference() {
    let context = context();
    let ctx = context.enter();
    let mut engine = Counting::new();
    let raw = engine.run(|log| Atom::from_str_raw(ctx, "key", log));
    assert_eq!(raw, 300);
    assert_eq!(engine.held(), 0);
}

#[test]
fn an_exception_is_gone_before_the_next_call() {
    let context = context();
    let ctx = context.enter();
    let mut engine = Counting::failing_at(0);
    let thrown = engine.run(|log| ctx.eval("throw 1", log));
    assert_eq!(thrown, Err(Error::Exception("text".to_string())));
    assert!(!engine.pending);
    assert_eq!(engine.held(), 0);
    let value = engine.run(|log| ctx.eval("1", log)).unwrap();
    let atom = engine.run(|log| Atom::from_value(ctx, &value, log)).unwrap();
    engine.answer(atom.drop());
    engine.answer(value.drop());
    assert_eq!(engine.held(), 0);
}
