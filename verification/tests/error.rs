use rquickjs::error::{discard, raise};
use rquickjs::{Call, Error, JSValue, Reply, Step, TextBuf};

fn run<'a, T>(op: impl Fn(&[Reply]) -> Step<'a, T>, replies: Vec<Reply>) -> (Vec<Call<'a>>, T) {
    let mut calls = Vec::new();
    let mut n = 0;
    loop {
        match op(&replies[..n]) {
            Step::Call(call) => {
                assert!(n < replies.len(), "the operation asks for more than {} replies", n);
                calls.push(call);
                n += 1;
            }
            Step::Done(result) => {
                assert_eq!(n, replies.len(), "the operation is done before the replies are");
                return (calls, result);
            }
        }
    }
}

fn thrown() -> JSValue {
    JSValue::Ref { tag: -1, ptr: 0x3000 }
}

#[test]
fn a_thrown_value_becomes_an_exception_with_its_text() {
    let replies = vec![
        Reply::Value(thrown()),
        Reply::Bool(false),
        Reply::Text(Some(TextBuf { ptr: 0x4000, text: "Error: boom".to_string() })),
        Reply::Unit,
        Reply::Unit,
    ];
    let (calls, error) = run(|log| raise(log, 0), replies);
    assert_eq!(
        calls,
        vec![
            Call::GetException,
            Call::TakeInterrupt,
            Call::ToCStringLen(thrown()),
            Call::FreeCString(0x4000),
            Call::FreeValue(thrown()),
        ]
    );
    assert_eq!(error, Error::Exception("Error: boom".to_string()));
}

#[test]
fn a_thrown_primitive_becomes_an_exception_too() {
    let replies = vec![
        Reply::Value(JSValue::Int(7)),
        Reply::Bool(false),
        Reply::Text(Some(TextBuf { ptr: 0x4000, text: "7".to_string() })),
        Reply::Unit,
        Reply::Unit,
    ];
    let (calls, error) = run(|log| raise(log, 0), replies);
    assert_eq!(calls[2], Call::ToCStringLen(JSValue::Int(7)));
    assert_eq!(calls[4], Call::FreeValue(JSValue::Int(7)));
    assert_eq!(error, Error::Exception("7".to_string()));
}

#[test]
fn an_aborted_script_is_interrupted_not_thrown() {
    let replies = vec![Reply::Value(thrown()), Reply::Bool(true), Reply::Unit];
    let (calls, error) = run(|log| raise(log, 0), replies);
    assert_eq!(calls, vec![Call::GetException, Call::TakeInterrupt, Call::FreeValue(thrown())]);
    assert_eq!(error, Error::Interrupted);
}

#[test]
fn an_empty_slot_is_an_unknown_failure() {
    let replies = vec![Reply::Value(JSValue::Uninitialized), Reply::Bool(false)];
    let (calls, error) = run(|log| raise(log, 0), replies);
    assert_eq!(calls, vec![Call::GetException, Call::TakeInterrupt]);
    assert_eq!(error, Error::Unknown);
}

#[test]
fn an_exception_without_text_degrades_to_unknown_and_leaks_nothing() {
    let second = JSValue::Ref { tag: -1, ptr: 0x3100 };
    let replies = vec![
        Reply::Value(thrown()),
        Reply::Bool(false),
        Reply::Text(None),
        Reply::Value(second),
        Reply::Unit,
        Reply::Unit,
    ];
    let (calls, error) = run(|log| raise(log, 0), replies);
    assert_eq!(
        calls,
        vec![
            Call::GetException,
            Call::TakeInterrupt,
            Call::ToCStringLen(thrown()),
            Call::GetException,
            Call::FreeValue(second),
            Call::FreeValue(thrown()),
        ]
    );
    assert_eq!(error, Error::Unknown);
}

#[test]
fn the_bridge_reads_from_the_place_it_is_given() {
    let log = vec![
        Reply::Atom(0),
        Reply::Value(thrown()),
        Reply::Bool(false),
        Reply::Text(Some(TextBuf { ptr: 0x4000, text: "x".to_string() })),
    ];
    assert_eq!(raise(&log, 4), Step::Call(Call::GetException));
    assert_eq!(raise(&log, 3), Step::Call(Call::TakeInterrupt));
    assert_eq!(raise(&log, 1), Step::Call(Call::FreeCString(0x4000)));
    assert_eq!(raise(&log[..3], 1), Step::Call(Call::ToCStringLen(thrown())));
}

#[test]
fn discarding_takes_the_exception_out_and_frees_it() {
    let replies = vec![Reply::Value(thrown()), Reply::Unit];
    let (calls, ()) = run(|log| discard(log, 0), replies);
    assert_eq!(calls, vec![Call::GetException, Call::FreeValue(thrown())]);
    let log = vec![Reply::Unit, Reply::Value(JSValue::Null)];
    assert_eq!(discard(&log, 1), Step::Call(Call::FreeValue(JSValue::Null)));
    assert_eq!(discard(&log, 2), Step::Call(Call::GetException));
    assert_eq!(discard(&log, 0), Step::Done(()));
}
