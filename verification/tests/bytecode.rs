use rquickjs::{Call, JSFunctionBytecode, Reply, Step};

#[test]
fn the_line_is_what_the_engine_finds() {
    let code = JSFunctionBytecode::from_ptr(0x8000);
    assert_eq!(code.as_ptr(), 0x8000);
    assert_eq!(
        code.find_line_num(17, &[]),
        Step::Call(Call::FindLineNum { bytecode: 0x8000, pc: 17 })
    );
    assert_eq!(code.find_line_num(17, &[Reply::Int(3)]), Step::Done(3));
}

#[test]
fn the_column_is_what_the_engine_finds() {
    let code = JSFunctionBytecode::from_ptr(0x8000);
    assert_eq!(
        code.find_column_num(17, &[]),
        Step::Call(Call::FindColumnNum { bytecode: 0x8000, pc: 17 })
    );
    assert_eq!(code.find_column_num(17, &[Reply::Int(12)]), Step::Done(12));
}

#[test]
fn a_function_without_debug_information_has_the_largest_line() {
    let code = JSFunctionBytecode::from_ptr(0x8000);
    assert_eq!(code.find_line_num(0, &[Reply::Int(-1)]), Step::Done(u32::MAX));
    assert_eq!(code.find_column_num(0, &[Reply::Int(-1)]), Step::Done(4294967295));
    assert_eq!(code.find_line_num(0, &[Reply::Int(i32::MIN)]), Step::Done(0x8000_0000));
    assert_eq!(code.find_line_num(0, &[Reply::Int(i32::MAX)]), Step::Done(0x7FFF_FFFF));
    assert_eq!(code.find_line_num(0, &[Reply::Int(0)]), Step::Done(0));
}

#[test]
fn line_and_column_are_asked_for_one_after_the_other() {
    let code = JSFunctionBytecode::from_ptr(0x8000);
    assert_eq!(
        code.find_line_col(17, &[]),
        Step::Call(Call::FindLineNum { bytecode: 0x8000, pc: 17 })
    );
    assert_eq!(
        code.find_line_col(17, &[Reply::Int(3)]),
        Step::Call(Call::FindColumnNum { bytecode: 0x8000, pc: 17 })
    );
    assert_eq!(code.find_line_col(17, &[Reply::Int(3), Reply::Int(12)]), Step::Done((3, 12)));
    assert_eq!(
        code.find_line_col(17, &[Reply::Int(-1), Reply::Int(-1)]),
        Step::Done((u32::MAX, u32::MAX))
    );
}
