//! End-to-end tests: assemble, link, store, run; and round trips.

use efa_core::commands::{roundtrip_file, run_scratch_file, CmdError};
use efa_core::toposort::{toposort, SolverError};
use efa_core::vm::RunError;
use efa_core::VmError;

const ARGS_ASM: &str = "$add3 3:
    load_arg 0
    load_arg 1
    add
    load_arg 2
    add
    ret_val
$main 0:
    .lit 1
    .lit 2
    .lit 3
    load_lit 0
    load_lit 1
    load_lit 2
    load_dyn $add3
    call
    ret_val
";

const COMPOUND_IF_ASM: &str = "$main 0:
    .lit 5
    .lit 3
    .lit 0
    load_lit 0
    load_lit 1
    jmp_gt Lyes
    load_lit 0
    ret_val
Lyes:
    load_lit 2
    ret_val
";

const CALL_ASM: &str = "$seven 0:
    .lit 7
    load_lit 0
    ret_val
$main 0:
    load_dyn $seven
    call
    ret_val
";

const DOUBLE_ASM: &str = "$double 1:
    .lit 2
    load_arg 0
    load_lit 0
    mul
    ret_val
$main 0:
    .lit 22
    .lit 44
    load_lit 0
    load_dyn $double
    call
    load_lit 1
    sub
    ret_val
";

const FIB_ASM: &str = "$fib 1:
    .lit 0
    .lit 1
    .lit 2
    load_arg 0
    load_lit 0
    eq
    load_arg 0
    load_lit 1
    eq
    or
    jmp_t Lbase
    load_arg 0
    load_lit 1
    sub
    call_self
    load_arg 0
    load_lit 2
    sub
    call_self
    add
    ret_val
Lbase:
    load_arg 0
    ret_val
$main 0:
    .lit 20
    load_lit 0
    load_dyn $fib
    call
    ret_val
";

const LITS_ASM: &str = "$main 0:
    .lit \"hello world\"
    .lit true
    .lit 0xdeadbeefdeadbeefcafebabecafebabe
    .lit 44
    load_lit 0
    pop
    load_lit 1
    pop
    load_lit 2
    pop
    load_lit 3
    ret_val
";

const SUM_SQUARES_ASM: &str = "$main 0:
    .lit 0
    .lit 1
    .lit 5
    load_lit 0
    store_loc 0
    load_lit 0
    store_loc 1
Lloop:
    load_loc 1
    load_lit 1
    add
    store_loc 1
    load_loc 0
    load_loc 1
    load_loc 1
    mul
    add
    store_loc 0
    load_loc 1
    load_lit 2
    jmp_lt Lloop
    load_loc 0
    ret_val
";

const PRIMES_ASM: &str = "$main 0:
    .lit 100
    .lit 3
    load_lit 0
    load_lit 1
    sub
    ret_val
";

const ISQRT_ASM: &str = "$main 0:
    .lit 15
    load_lit 0
    load_lit 0
    mul
    ret_val
";

const MAIN_ASM: &str = "$main 0:
    .lit 1
    load_lit 0
    ret_val
";

const ARRAY_2D_ASM: &str = "$main 0:
    .lit 2
    .lit 3
    load_lit 0
    load_lit 1
    mul
    ret_val
";

const ARRAY_MAP_ASM: &str = "$main 0:
    .lit 9
    .lit 10
    load_lit 0
    load_lit 1
    mul
    ret_val
";

fn run(source: &str) -> i32 {
    run_scratch_file(source).expect("ERROR running program")
}

#[test]
fn commands_test_examples() {
    assert_eq!(run(ARGS_ASM), 6);
    assert_eq!(run(COMPOUND_IF_ASM), 0);
    assert_eq!(run(CALL_ASM), 7);
    assert_eq!(run(DOUBLE_ASM), 0);
    assert_eq!(run(FIB_ASM), 6765);
    assert_eq!(run(LITS_ASM), 44);
    assert_eq!(run(SUM_SQUARES_ASM), 55);
    assert_eq!(run(PRIMES_ASM), 97);
    assert_eq!(run(ISQRT_ASM), 225);
    assert_eq!(run(MAIN_ASM), 1);
    assert_eq!(run(ARRAY_2D_ASM), 6);
    assert_eq!(run(ARRAY_MAP_ASM), 90);
}

#[test]
fn test_roundtrips() {
    let programs = vec![
        ARGS_ASM,
        COMPOUND_IF_ASM,
        CALL_ASM,
        DOUBLE_ASM,
        FIB_ASM,
        LITS_ASM,
        SUM_SQUARES_ASM,
        PRIMES_ASM,
        ISQRT_ASM,
        MAIN_ASM,
        ARRAY_2D_ASM,
        ARRAY_MAP_ASM,
    ];
    for p in programs {
        let (a, b) = roundtrip_file(p).unwrap();
        assert_eq!(a, b);
    }
}

#[test]
fn test_toposort() {
    // a -> {b, c}, b -> {c, d}, c -> {d}, d -> {} as indices 0..3.
    let graph = vec![vec![1, 2], vec![2, 3], vec![3], vec![]];
    assert_eq!(toposort(&graph).unwrap(), vec![0, 1, 2, 3]);
}

#[test]
fn test_toposort_cycle() {
    let graph = vec![vec![1], vec![0]];
    assert_eq!(toposort(&graph), Err(SolverError::Cycle));
}

#[test]
fn test_resolver() {
    let parse = efa_core::parser::Parser::parse_file(CALL_ASM).unwrap();
    let resolver = efa_core::resolve_dyn::DynCallResolver::new(parse).unwrap();
    println!("{:?}", &resolver);
    let resolved = resolver.resolve_dyn_calls().unwrap();
    println!("{:?}", resolved);
    // The symbolic reference in main was replaced by a hash reference.
    let main_obj = resolved
        .iter()
        .find(|(n, _)| n == "main")
        .map(|(_, o)| o)
        .unwrap();
    let has_load_dyn = main_obj
        .code
        .code
        .iter()
        .any(|i| matches!(i, efa_core::bytecode::Instr::LoadDyn(_)));
    assert!(!has_load_dyn);
}

#[test]
fn test_cyclic_programs_fail_to_link() {
    let cyclic = "$a 0:
    load_dyn $b
    call
    ret_val
$b 0:
    load_dyn $a
    call
    ret_val
$main 0:
    load_dyn $a
    call
    ret_val
";
    assert_eq!(
        run_scratch_file(cyclic),
        Err(CmdError::Solve(SolverError::Cycle))
    );
}

#[test]
fn test_self_recursion_is_not_a_cycle() {
    let selfy = "$loopy 1:
    .lit 0
    .lit 1
    load_arg 0
    load_lit 0
    jmp_le Lout
    load_arg 0
    load_lit 1
    sub
    load_dyn $loopy
    call
    ret_val
Lout:
    load_arg 0
    ret_val
$main 0:
    .lit 5
    load_lit 0
    load_dyn $loopy
    call
    ret_val
";
    assert_eq!(run_scratch_file(selfy).unwrap(), 0);
}

#[test]
fn test_string_main_return_is_fatal() {
    let bad = "$main 0:
    .lit \"done\"
    load_lit 0
    ret_val
";
    assert_eq!(
        run_scratch_file(bad),
        Err(CmdError::Run(RunError::Exec(VmError::NonIntegerMainReturn)))
    );
}

#[test]
fn test_missing_main_is_reported() {
    let no_main = "$helper 0:
    .lit 3
    load_lit 0
    ret_val
";
    assert_eq!(
        run_scratch_file(no_main),
        Err(CmdError::Run(RunError::Store(
            efa_core::store::StoreError::MissingMain
        )))
    );
}

#[test]
fn test_scenario_add() {
    let p = "$main 0:
    .lit 6
    .lit 7
    load_lit 0
    load_lit 1
    add
    ret_val
";
    assert_eq!(run_scratch_file(p).unwrap(), 13);
}

#[test]
fn test_scenario_sub() {
    let p = "$main 0:
    .lit 10
    .lit 3
    load_lit 0
    load_lit 1
    sub
    ret_val
";
    assert_eq!(run_scratch_file(p).unwrap(), 7);
}
