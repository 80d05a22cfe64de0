use rcomp::bytecode::{Block, Func, FuncSig, Inst, Terminator, Type};
use rcomp::common::Binop;
use rcomp::vm::{Event, Value, VM};

fn func(insts: Vec<Inst>, variables: Vec<u32>) -> Func {
    Func {
        blocks: vec![Block { insts, terminator: Terminator::Ret }],
        variables,
        sig: FuncSig { args: vec![], rets: vec![] },
    }
}

#[test]
fn stored_values_read_back() {
    for (v, t) in [
        (Value::Int64(-5), Type::Int64),
        (Value::Int64(i64::MAX), Type::Int64),
        (Value::Bool(true), Type::Bool),
        (Value::Bool(false), Type::Bool),
    ] {
        let bytes = v.clone().as_bytes();
        assert_eq!(Value::from_bytes(&bytes, &t), v);
    }
    assert_eq!(Value::Int64(1).as_bytes(), vec![1, 0, 0, 0, 0, 0, 0, 0]);
    assert_eq!(Value::Bool(true).as_bytes(), vec![1]);
}

#[test]
fn arithmetic_and_locals() {
    let f = func(
        vec![
            Inst::PushInt(6),
            Inst::SetLocal { id: 0, offset: 0 },
            Inst::Get { id: 0, offset: 0, tp: Type::Int64 },
            Inst::PushInt(7),
            Inst::Binop(Binop::Mul),
        ],
        vec![8],
    );
    let funcs = vec![("main".to_string(), f)];
    let mut vm = VM::new(&funcs);
    assert_eq!(vm.eval_func("main", 100), Event::Finished);
    assert_eq!(vm.finish(), Some(Value::Int64(42)));
}

#[test]
fn branches_choose_a_block() {
    let f = Func {
        blocks: vec![
            Block { insts: vec![Inst::PushInt(1), Inst::PushInt(2), Inst::Binop(Binop::Lt)], terminator: Terminator::Br(1, 2) },
            Block { insts: vec![Inst::PushInt(10)], terminator: Terminator::Ret },
            Block { insts: vec![Inst::PushInt(20)], terminator: Terminator::Ret },
        ],
        variables: vec![],
        sig: FuncSig { args: vec![], rets: vec![] },
    };
    let funcs = vec![("main".to_string(), f)];
    let mut vm = VM::new(&funcs);
    assert_eq!(vm.eval_func("main", 100), Event::Finished);
    assert_eq!(vm.finish(), Some(Value::Int64(10)));
}

#[test]
fn reading_and_printing_go_through_events() {
    let f = func(
        vec![
            Inst::Call("must_read".to_string()),
            Inst::PushInt(1),
            Inst::Binop(Binop::Add),
            Inst::Call("must_print".to_string()),
        ],
        vec![],
    );
    let funcs = vec![("main".to_string(), f)];
    let mut vm = VM::new(&funcs);
    assert_eq!(vm.eval_func("main", 100), Event::NeedInput);
    vm.provide_input(41);
    assert_eq!(vm.run(100), Event::Output(Value::Int64(42)));
    assert_eq!(vm.run(100), Event::Finished);
    assert_eq!(vm.finish(), None);
}

#[test]
fn errors_trap() {
    let f = func(vec![Inst::Binop(Binop::Add)], vec![]);
    let funcs = vec![("main".to_string(), f)];
    let mut vm = VM::new(&funcs);
    assert_eq!(vm.eval_func("main", 100), Event::Trap);
    let g = func(vec![Inst::PushInt(1), Inst::PushInt(0), Inst::Binop(Binop::Div)], vec![]);
    let funcs = vec![("main".to_string(), g)];
    let mut vm = VM::new(&funcs);
    assert_eq!(vm.eval_func("main", 100), Event::Trap);
    let mut vm = VM::new(&funcs);
    assert_eq!(vm.eval_func("nothing", 100), Event::Trap);
}

#[test]
fn calls_share_the_stack() {
    let callee = func(vec![Inst::PushInt(2), Inst::Binop(Binop::Mul)], vec![]);
    let main = func(vec![Inst::PushInt(21), Inst::Call("double".to_string())], vec![]);
    let funcs = vec![("main".to_string(), main), ("double".to_string(), callee)];
    let mut vm = VM::new(&funcs);
    assert_eq!(vm.eval_func("main", 100), Event::Finished);
    assert_eq!(vm.finish(), Some(Value::Int64(42)));
}

#[test]
fn running_out_of_fuel_continues() {
    let f = Func {
        blocks: vec![Block { insts: vec![], terminator: Terminator::Jmp(0) }],
        variables: vec![],
        sig: FuncSig { args: vec![], rets: vec![] },
    };
    let funcs = vec![("main".to_string(), f)];
    let mut vm = VM::new(&funcs);
    assert_eq!(vm.eval_func("main", 50), Event::Continue);
}

#[test]
fn running_in_stretches_is_running_once() {
    let f = func(
        vec![
            Inst::PushInt(1),
            Inst::PushInt(2),
            Inst::Binop(Binop::Add),
            Inst::PushInt(3),
            Inst::Binop(Binop::Mul),
        ],
        vec![],
    );
    let funcs = vec![("main".to_string(), f)];
    let mut once = VM::new(&funcs);
    assert_eq!(once.eval_func("main", 100), Event::Finished);
    let mut twice = VM::new(&funcs);
    assert_eq!(twice.eval_func("main", 2), Event::Continue);
    assert_eq!(twice.run(98), Event::Finished);
    assert_eq!(once.finish(), twice.finish());
}

#[test]
fn a_stored_local_is_read_back_and_others_stay() {
    let f = func(
        vec![
            Inst::PushInt(-7),
            Inst::SetLocal { id: 0, offset: 0 },
            Inst::PushBool(true),
            Inst::SetLocal { id: 1, offset: 0 },
            Inst::Get { id: 0, offset: 0, tp: Type::Int64 },
        ],
        vec![8, 1],
    );
    let funcs = vec![("main".to_string(), f)];
    let mut vm = VM::new(&funcs);
    assert_eq!(vm.eval_func("main", 100), Event::Finished);
    assert_eq!(vm.finish(), Some(Value::Int64(-7)));
}

#[test]
fn arithmetic_is_exact_or_traps() {
    let f = func(vec![Inst::PushInt(i64::MAX), Inst::PushInt(1), Inst::Binop(Binop::Add)], vec![]);
    let funcs = vec![("main".to_string(), f)];
    let mut vm = VM::new(&funcs);
    assert_eq!(vm.eval_func("main", 100), Event::Trap);
    let g = func(vec![Inst::PushInt(7), Inst::PushInt(-3), Inst::Binop(Binop::Sub)], vec![]);
    let funcs = vec![("main".to_string(), g)];
    let mut vm = VM::new(&funcs);
    assert_eq!(vm.eval_func("main", 100), Event::Finished);
    assert_eq!(vm.finish(), Some(Value::Int64(10)));
    let h = func(vec![Inst::PushInt(3), Inst::PushInt(4), Inst::Binop(Binop::Lt)], vec![]);
    let funcs = vec![("main".to_string(), h)];
    let mut vm = VM::new(&funcs);
    assert_eq!(vm.eval_func("main", 100), Event::Finished);
    assert_eq!(vm.finish(), Some(Value::Bool(true)));
}

#[test]
fn a_returning_call_releases_its_frame() {
    let callee = func(vec![Inst::PushInt(5)], vec![8, 8]);
    let main = func(vec![Inst::Call("five".to_string()), Inst::Call("five".to_string()), Inst::Binop(Binop::Add)], vec![8]);
    let funcs = vec![("main".to_string(), main), ("five".to_string(), callee)];
    let mut vm = VM::new(&funcs);
    assert_eq!(vm.eval_func("main", 100), Event::Finished);
    assert_eq!(vm.finish(), Some(Value::Int64(10)));
}

#[test]
fn bytes_read_back_whatever_follows() {
    for (v, t) in [(Value::Int64(-77), Type::Int64), (Value::Int64(i64::MIN), Type::Int64), (Value::Bool(true), Type::Bool)] {
        let bytes = [v.clone().as_bytes(), vec![0xAB, 0xCD, 0xEF]].concat();
        assert_eq!(Value::from_bytes(&bytes, &t), v);
    }
    assert_eq!(Value::from_bytes(&[7, 0], &Type::Bool), Value::Bool(true));
    assert_eq!(Value::from_bytes(&[0, 9], &Type::Bool), Value::Bool(false));
}
