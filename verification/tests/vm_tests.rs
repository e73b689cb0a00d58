//! Tests of the execution engine, frame by frame and through the store.

use efa_core::bytecode::{BinOp, Bytecode, Instr, UnaryOp};
use efa_core::object::CodeObject;
use efa_core::value::Value;
use efa_core::vm::{RunError, StackFrame, Vm};
use efa_core::VmError;

fn init_code_obj(code: Bytecode) -> CodeObject {
    CodeObject {
        litpool: vec![Value::int32(5), Value::string("hello")],
        argcount: 2,
        labels: Vec::new(),
        localnames: vec!["x".into(), "y".into(), "z".into()],
        code,
    }
}

fn init_frame(code: Bytecode) -> StackFrame {
    let code_obj = init_code_obj(code);
    StackFrame {
        code_obj,
        stack: Vec::new(),
        locals: vec![
            Some(Value::int32(10)),
            Some(Value::string("ok")),
            Some(Value::int32(64)),
        ],
        instruction: 0,
    }
}

fn init_code_obj_with_pool(code: Bytecode, litpool: Vec<Value>) -> CodeObject {
    CodeObject {
        litpool,
        argcount: 2,
        labels: Vec::new(),
        localnames: vec!["x".into(), "y".into(), "z".into()],
        code,
    }
}

#[test]
fn mod_test_load_arg() {
    let main = init_frame(Bytecode::new(vec![Instr::LoadArg(1), Instr::LoadArg(0)]));
    let mut vm = Vm::new();

    let mut frame = vm.run_frame(main).unwrap();
    let tos = frame.stack.pop().unwrap();
    assert!(matches!(tos, Value::I32(10)));
    let tos = frame.stack.pop().unwrap();
    assert!(matches!(tos, Value::String(ref s) if s == "ok"));
}

#[test]
fn mod_test_load_local() {
    let main = init_frame(Bytecode::new(vec![Instr::LoadLocal(0)]));
    let mut vm = Vm::new();

    let mut frame = vm.run_frame(main).unwrap();
    let tos = frame.stack.pop().unwrap();
    assert!(matches!(tos, Value::I32(64)));
}

#[test]
fn mod_test_load_lit() {
    let main = init_frame(Bytecode::new(vec![Instr::LoadLit(1)]));
    let mut vm = Vm::new();

    let mut frame = vm.run_frame(main).unwrap();
    let tos = frame.stack.pop().unwrap();
    assert!(matches!(tos, Value::String(ref s) if s == "hello"));
}

#[test]
fn mod_test_store_local() {
    let mut main = init_frame(Bytecode::new(vec![Instr::StoreLocal(0)]));
    let mut vm = Vm::new();

    let v = Value::I32(100);
    main.stack.push(v.clone());

    let frame = vm.run_frame(main).unwrap();

    assert_eq!(frame.locals[2], Some(v));
}

#[test]
fn mod_test_ops() {
    let mut main = init_frame(Bytecode::new(vec![
        Instr::BinOp(BinOp::Add),
        Instr::BinOp(BinOp::Mul),
        Instr::BinOp(BinOp::Mod),
        Instr::BinOp(BinOp::Sub),
        Instr::UnaryOp(UnaryOp::Neg),
    ]));
    let mut vm = Vm::new();

    main.stack.push(Value::int32(5));
    main.stack.push(Value::int32(4));
    main.stack.push(Value::int32(6));
    main.stack.push(Value::int32(3));
    main.stack.push(Value::int32(2));

    let mut frame = vm.run_frame(main).unwrap();

    assert_eq!(frame.stack.pop().unwrap(), Value::int32(-(5 - (4 % (6 * (3 + 2))))));
}

#[test]
fn mod_test_jump() {
    let mut main = init_frame(Bytecode::new(vec![
        Instr::Jump(0),
        Instr::BinOp(BinOp::Add),
        Instr::BinOp(BinOp::Mul),
    ]));
    main.code_obj.labels.push(2);
    let mut vm = Vm::new();

    main.stack.push(Value::int32(5));
    main.stack.push(Value::int32(4));

    let mut frame = vm.run_frame(main).unwrap();

    assert_eq!(frame.stack.pop().unwrap(), Value::int32(20));
}

#[test]
fn mod_test_jump_greater() {
    let mut code_obj = init_code_obj_with_pool(
        Bytecode::new(vec![
            Instr::LoadLit(2),
            Instr::LoadLit(2),
            Instr::LoadLit(2),
            Instr::LoadLit(0),
            Instr::LoadLit(1),
            Instr::JumpGt(0),
            Instr::BinOp(BinOp::Add),
            Instr::BinOp(BinOp::Mul),
        ]),
        vec![Value::int32(1), Value::int32(2), Value::int32(4)],
    );
    code_obj.labels.push(7);

    let main = StackFrame {
        code_obj,
        stack: vec![Value::int32(1), Value::int32(2), Value::int32(4), Value::int32(4)],
        instruction: 0,
        locals: Vec::new(),
    };

    let mut vm = Vm::new();

    let mut frame = vm.run_frame(main).unwrap();
    assert_eq!(frame.stack.pop().unwrap(), Value::int32(32));
}

#[test]
fn mod_test_jump_less() {
    let mut code_obj = init_code_obj_with_pool(
        Bytecode::new(vec![
            Instr::LoadLit(2),
            Instr::LoadLit(2),
            Instr::LoadLit(2),
            Instr::LoadLit(0),
            Instr::LoadLit(1),
            Instr::JumpLt(0),
            Instr::BinOp(BinOp::Add),
            Instr::BinOp(BinOp::Mul),
        ]),
        vec![Value::int32(1), Value::int32(2), Value::int32(4)],
    );
    code_obj.labels.push(7);
    let main = StackFrame {
        code_obj,
        stack: vec![Value::int32(1), Value::int32(2), Value::int32(4), Value::int32(4)],
        instruction: 0,
        locals: Vec::new(),
    };

    let mut vm = Vm::new();

    let mut frame = vm.run_frame(main).unwrap();
    assert_eq!(frame.stack.pop().unwrap(), Value::int32(16));
}

#[test]
fn test_hash_code_obj() {
    let obj = init_code_obj(Bytecode::default());
    println!("{:?}", obj.hash_str());
}

#[test]
fn test_main_return_code() {
    let mut vm = Vm::new();

    let func_b = CodeObject {
        litpool: vec![Value::int32(4), Value::int32(3)],
        argcount: 0,
        localnames: vec![],
        labels: Vec::new(),
        code: Bytecode::new(vec![
            Instr::LoadLit(0),
            Instr::LoadLit(1),
            Instr::BinOp(BinOp::Add),
            Instr::ReturnVal,
        ]),
    };

    let hash = vm.db.insert_code_object_with_name(&func_b, "func_b").unwrap();

    let func_a = CodeObject {
        litpool: vec![Value::I32(10)],
        argcount: 0,
        localnames: vec![],
        labels: Vec::new(),
        code: Bytecode::new(vec![
            Instr::LoadFunc(hash),
            Instr::Call,
            Instr::LoadLit(0),
            Instr::BinOp(BinOp::Mul),
            Instr::ReturnVal,
        ]),
    };

    vm.db.insert_code_object_with_name(&func_a, "main").unwrap();
    let code = vm.run_main_function().unwrap();
    assert_eq!(code, 70);
}

#[test]
fn test_void_funccall() {
    let mut vm = Vm::new();

    let func_b = CodeObject {
        litpool: vec![Value::int32(4), Value::int32(3)],
        argcount: 0,
        localnames: vec![],
        labels: Vec::new(),
        code: Bytecode::new(vec![
            Instr::LoadLit(0),
            Instr::LoadLit(1),
            Instr::BinOp(BinOp::Add),
            Instr::Return,
        ]),
    };

    let hash = vm.db.insert_code_object_with_name(&func_b, "func_b").unwrap();

    let func_a = CodeObject {
        litpool: vec![],
        argcount: 0,
        localnames: vec![],
        labels: Vec::new(),
        code: Bytecode::new(vec![Instr::LoadFunc(hash), Instr::Call, Instr::Return]),
    };
    vm.db.insert_code_object_with_name(&func_a, "main").unwrap();

    let code = vm.run_main_function().unwrap();
    assert_eq!(code, 0);
}

#[test]
fn test_main_returns_1() {
    let mut vm = Vm::new();
    let func = CodeObject {
        litpool: vec![],
        argcount: 0,
        localnames: vec![],
        labels: Vec::new(),
        code: Bytecode::new(vec![Instr::ReturnVal]),
    };
    vm.db.insert_code_object_with_name(&func, "main").unwrap();
    assert!(vm.run_main_function().is_err());
}

#[test]
fn test_main_returns_2() {
    let mut vm = Vm::new();
    let func = CodeObject {
        litpool: vec![Value::string("break")],
        argcount: 0,
        localnames: vec![],
        labels: Vec::new(),
        code: Bytecode::new(vec![Instr::LoadLit(0), Instr::ReturnVal]),
    };
    vm.db.insert_code_object_with_name(&func, "main").unwrap();
    assert!(vm.run_main_function().is_err());
}

#[test]
fn test_main_returns_3() {
    let mut vm = Vm::new();
    let func = CodeObject {
        litpool: vec![Value::I32(0)],
        argcount: 0,
        localnames: vec![],
        labels: Vec::new(),
        code: Bytecode::new(vec![Instr::LoadLit(0), Instr::ReturnVal]),
    };
    vm.db.insert_code_object_with_name(&func, "main").unwrap();
    assert_eq!(vm.run_main_function().unwrap(), 0);
}

#[test]
fn test_fib() {
    let mut vm = Vm::new();
    let fib = CodeObject {
        litpool: vec![Value::I32(0), Value::I32(1), Value::I32(2)],
        argcount: 1,
        localnames: vec!["n".into()],
        labels: vec![18],
        code: Bytecode::new(vec![
            Instr::LoadArg(0),
            Instr::LoadLit(0),
            Instr::BinOp(BinOp::Eq),
            Instr::LoadArg(0),
            Instr::LoadLit(1),
            Instr::BinOp(BinOp::Eq),
            Instr::BinOp(BinOp::Or),
            Instr::JumpT(0),
            Instr::LoadArg(0),
            Instr::LoadLit(1),
            Instr::BinOp(BinOp::Sub),
            Instr::CallSelf,
            Instr::LoadArg(0),
            Instr::LoadLit(2),
            Instr::BinOp(BinOp::Sub),
            Instr::CallSelf,
            Instr::BinOp(BinOp::Add),
            Instr::ReturnVal,
            Instr::LoadArg(0),
            Instr::ReturnVal,
        ]),
    };

    let hash = vm.db.insert_code_object_with_name(&fib, "fib").unwrap();

    let mut f = |n: i32| -> i32 {
        let main = CodeObject {
            litpool: vec![Value::I32(n)],
            argcount: 0,
            localnames: vec![],
            labels: Vec::new(),
            code: Bytecode::new(vec![
                Instr::LoadLit(0),
                Instr::LoadFunc(hash),
                Instr::Call,
                Instr::ReturnVal,
            ]),
        };
        vm.db
            .insert_code_object_with_name(&main, &format!("fib_{n}"))
            .unwrap();
        vm.run_function_by_name(&format!("fib_{n}")).unwrap()
    };

    assert_eq!(f(10), 55);
    assert_eq!(f(15), 610);
    assert_eq!(f(25), 75025);
}

#[test]
fn test_unbounded_recursion_overflows_call_stack() {
    let mut vm = Vm::new();
    let func = CodeObject {
        litpool: vec![],
        argcount: 0,
        localnames: vec![],
        labels: Vec::new(),
        code: Bytecode::new(vec![Instr::CallSelf, Instr::ReturnVal]),
    };
    vm.db.insert_code_object_with_name(&func, "main").unwrap();
    assert_eq!(
        vm.run_main_function(),
        Err(RunError::Exec(VmError::CallStackOverflow))
    );
}

#[test]
fn test_operand_stack_is_bounded() {
    let mut vm = Vm::new();
    // Dup in a loop until the operand stack cap is hit.
    let func = CodeObject {
        litpool: vec![Value::I32(1)],
        argcount: 0,
        localnames: vec![],
        labels: vec![1],
        code: Bytecode::new(vec![Instr::LoadLit(0), Instr::Dup, Instr::Jump(0)]),
    };
    vm.db.insert_code_object_with_name(&func, "main").unwrap();
    assert_eq!(
        vm.run_main_function(),
        Err(RunError::Exec(VmError::OperandStackOverflow))
    );
}

#[test]
fn test_type_mismatch_in_operator() {
    let mut vm = Vm::new();
    let func = CodeObject {
        litpool: vec![Value::I32(1), Value::string("x")],
        argcount: 0,
        localnames: vec![],
        labels: Vec::new(),
        code: Bytecode::new(vec![
            Instr::LoadLit(0),
            Instr::LoadLit(1),
            Instr::BinOp(BinOp::Add),
            Instr::ReturnVal,
        ]),
    };
    vm.db.insert_code_object_with_name(&func, "main").unwrap();
    assert_eq!(
        vm.run_main_function(),
        Err(RunError::Exec(VmError::TypeMismatch))
    );
}

#[test]
fn test_division_by_zero_is_fatal() {
    let mut vm = Vm::new();
    let func = CodeObject {
        litpool: vec![Value::I32(1), Value::I32(0)],
        argcount: 0,
        localnames: vec![],
        labels: Vec::new(),
        code: Bytecode::new(vec![
            Instr::LoadLit(0),
            Instr::LoadLit(1),
            Instr::BinOp(BinOp::Div),
            Instr::ReturnVal,
        ]),
    };
    vm.db.insert_code_object_with_name(&func, "main").unwrap();
    assert_eq!(
        vm.run_main_function(),
        Err(RunError::Exec(VmError::DivisionByZero))
    );
}

#[test]
fn test_overflow_is_fatal() {
    let mut vm = Vm::new();
    let func = CodeObject {
        litpool: vec![Value::I32(i32::MAX), Value::I32(1)],
        argcount: 0,
        localnames: vec![],
        labels: Vec::new(),
        code: Bytecode::new(vec![
            Instr::LoadLit(0),
            Instr::LoadLit(1),
            Instr::BinOp(BinOp::Add),
            Instr::ReturnVal,
        ]),
    };
    vm.db.insert_code_object_with_name(&func, "main").unwrap();
    assert_eq!(
        vm.run_main_function(),
        Err(RunError::Exec(VmError::ArithmeticOverflow))
    );
}

#[test]
fn test_and_or_pick_operands_by_truthiness() {
    // And returns the right operand when both are truthy; Or the first
    // truthy one.
    assert_eq!(Value::int32(2).and(Value::int32(3)), Value::int32(3));
    assert_eq!(Value::int32(0).and(Value::int32(3)), Value::int32(0));
    assert_eq!(Value::int32(2).or(Value::int32(3)), Value::int32(2));
    assert_eq!(Value::int32(0).or(Value::int32(3)), Value::int32(3));
    assert_eq!(Value::string("").or(Value::string("b")), Value::string("b"));
}

#[test]
fn test_dbg_observations_are_logged() {
    let mut vm = Vm::new();
    let func = CodeObject {
        litpool: vec![Value::I32(7)],
        argcount: 0,
        localnames: vec![],
        labels: Vec::new(),
        code: Bytecode::new(vec![Instr::LoadLit(0), Instr::Dbg, Instr::ReturnVal]),
    };
    vm.db.insert_code_object_with_name(&func, "main").unwrap();
    assert_eq!(vm.run_main_function().unwrap(), 7);
    assert_eq!(vm.dbg_log, vec![Value::I32(7)]);
}
