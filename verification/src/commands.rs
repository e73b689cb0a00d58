//! The toolchain pipeline: parse assembly text, link it, fill a fresh
//! store, and run `main`; and the round trip that disassembles the
//! store and runs the emitted text again.

use vstd::prelude::*;
use crate::object::CodeObjV;
use crate::parser::{parse_file_model, ParseError, Parser};
use crate::resolve_dyn::{
    dedup, has_pair, input_view, names_unique, objs_view, rewritten_entry, DynCallResolver,
};
use crate::store::{insert_model, StoreError, StoreV};
use crate::toposort::SolverError;
use crate::vm::{entry_state, run_model, RunError, RunResV, Vm, VmV, STACK_CAP};
use crate::VmError;

verus! {

/// Why the pipeline stopped.
#[derive(Debug, PartialEq)]
pub enum CmdError {
    /// The text was rejected by the parser.
    Parse(ParseError),
    /// The link pass found a dependency cycle.
    Solve(SolverError),
    /// The store rejected an insert.
    Store(StoreError),
    /// Execution failed, or `main` was missing.
    Run(RunError),
    /// The store held an object no assembly text can express.
    Dis(VmError),
}

/// The store after inserting each linked function in order, under its
/// name.
pub open spec fn insert_all(s: StoreV, ps: Seq<(Seq<char>, CodeObjV)>, i: int) -> Result<
    StoreV,
    StoreError,
>
    decreases ps.len() - i,
{
    if i >= ps.len() {
        Ok(s)
    } else {
        match insert_model(s, ps[i].0, ps[i].1).1 {
            Ok(_) => insert_all(insert_model(s, ps[i].0, ps[i].1).0, ps, i + 1),
            Err(e) => Err(e),
        }
    }
}

/// Link closure over a whole output map: unique names, the same name
/// set as the input, and every entry rewritten as the resolve pass
/// promises.
pub open spec fn linked(
    inp: Seq<(Seq<char>, CodeObjV)>,
    outv: Seq<(Seq<char>, CodeObjV)>,
) -> bool {
    &&& names_unique(outv)
    &&& forall|s: int| 0 <= s < outv.len() ==> #[trigger] rewritten_entry(inp, outv, s)
    &&& forall|s: int| 0 <= s < outv.len() ==> has_pair(inp, (#[trigger] outv[s]).0)
    &&& forall|j: int| 0 <= j < inp.len() ==> has_pair(outv, (#[trigger] inp[j]).0)
}

/// The machine state just before the entry point runs: a fresh machine
/// whose store holds the linked functions.
pub open spec fn fresh_vm(s: StoreV) -> VmV {
    VmV {
        frames: Seq::empty(),
        data_cap: STACK_CAP,
        call_cap: STACK_CAP,
        store: s,
        dbg: Seq::empty(),
    }
}

/// The whole pipeline's promise for a source text that ran to an exit
/// code: some link closure of the parsed input fills a fresh store, the
/// store has an entry point, and running it halts with that code.
pub open spec fn scratch_outcome(source: Seq<char>, c: i32) -> bool {
    exists|outv: Seq<(Seq<char>, CodeObjV)>|
        {
            &&& #[trigger] linked(dedup(parse_file_model(source)->Ok_0), outv)
            &&& insert_all(empty_store(), outv, 0) is Ok
            &&& ({
                let s1 = insert_all(empty_store(), outv, 0)->Ok_0;
                &&& s1.main is Some
                &&& (match run_model(
                    entry_state(fresh_vm(s1), crate::vm::store_obj(s1, s1.main->Some_0)),
                    u64::MAX as nat,
                ) {
                    RunResV::Halted(c2, _) => c2 == c,
                    _ => false,
                })
            })
        }
}

/// A store holding nothing.
pub open spec fn empty_store() -> StoreV {
    StoreV { objects: Seq::empty(), names: Seq::empty(), main: None }
}

/// The pipeline's promise when the link pass failed: the text parses,
/// and some dependency graph of the parsed input's symbolic references
/// has a cycle.
pub open spec fn cycle_outcome(source: Seq<char>) -> bool {
    &&& parse_file_model(source) is Ok
    &&& exists|g: Seq<Seq<usize>>, c: Seq<int>|
        crate::resolve_dyn::edge_iff(g, dedup(parse_file_model(source)->Ok_0))
            && #[trigger] crate::toposort::is_cycle(g, c)
}

/// The pipeline's promise when no entry point exists: the text parses,
/// but no function in it is defined under the name `main`.
pub open spec fn no_main_outcome(source: Seq<char>) -> bool {
    &&& parse_file_model(source) is Ok
    &&& forall|j: int|
        0 <= j < parse_file_model(source)->Ok_0.len() ==> (#[trigger] parse_file_model(
            source,
        )->Ok_0[j]).func_name != "main"@
}

/// The pipeline's promise when execution failed: the text parses, some
/// link closure of it fills a store with an entry point, and running it
/// aborts with this error (the budget error stands for a run that never
/// finishes).
pub open spec fn exec_fail_outcome(source: Seq<char>, e: VmError) -> bool {
    &&& parse_file_model(source) is Ok
    &&& exists|outv: Seq<(Seq<char>, CodeObjV)>|
        {
            &&& #[trigger] linked(dedup(parse_file_model(source)->Ok_0), outv)
            &&& insert_all(empty_store(), outv, 0) is Ok
            &&& ({
                let s1 = insert_all(empty_store(), outv, 0)->Ok_0;
                &&& s1.main is Some
                &&& (match run_model(
                    entry_state(fresh_vm(s1), crate::vm::store_obj(s1, s1.main->Some_0)),
                    u64::MAX as nat,
                ) {
                    RunResV::Aborted(e2, _) => e2 == e,
                    RunResV::Spin(_) => e == VmError::OutOfFuel,
                    RunResV::Halted(_, _) => false,
                })
            })
        }
}

/// A completed first pass of the round trip: the text parses, some
/// link closure of it fills a store with an entry point whose run
/// halts, and that store disassembles to `t`.
pub open spec fn first_pass_dump(source: Seq<char>, t: Seq<char>) -> bool {
    &&& parse_file_model(source) is Ok
    &&& exists|outv: Seq<(Seq<char>, CodeObjV)>|
        {
            &&& #[trigger] linked(dedup(parse_file_model(source)->Ok_0), outv)
            &&& insert_all(empty_store(), outv, 0) is Ok
            &&& ({
                let s1 = insert_all(empty_store(), outv, 0)->Ok_0;
                &&& s1.main is Some
                &&& run_model(
                    entry_state(fresh_vm(s1), crate::vm::store_obj(s1, s1.main->Some_0)),
                    u64::MAX as nat,
                ) is Halted
                &&& crate::dis::dis_store_model(s1, 0) == Ok::<Seq<char>, VmError>(t)
            })
        }
}

/// The round trip's promise when the store could not be disassembled:
/// the first pipeline ran to completion, but a stored object carries a
/// label offset past its code.
pub open spec fn dis_fail_outcome(source: Seq<char>, e: VmError) -> bool {
    &&& parse_file_model(source) is Ok
    &&& exists|outv: Seq<(Seq<char>, CodeObjV)>|
        {
            &&& #[trigger] linked(dedup(parse_file_model(source)->Ok_0), outv)
            &&& insert_all(empty_store(), outv, 0) is Ok
            &&& ({
                let s1 = insert_all(empty_store(), outv, 0)->Ok_0;
                &&& s1.main is Some
                &&& run_model(
                    entry_state(fresh_vm(s1), crate::vm::store_obj(s1, s1.main->Some_0)),
                    u64::MAX as nat,
                ) is Halted
                &&& crate::dis::dis_store_model(s1, 0) == Err::<Seq<char>, VmError>(e)
            })
        }
}

/// The round trip's promise on success: the first pipeline halts with
/// the first code, the store it filled disassembles to a text, and the
/// pipeline's whole promise for the second code holds of that text.
pub open spec fn roundtrip_outcome(source: Seq<char>, a: i32, b: i32) -> bool {
    &&& parse_file_model(source) is Ok
    &&& exists|outv: Seq<(Seq<char>, CodeObjV)>|
        {
            &&& #[trigger] linked(dedup(parse_file_model(source)->Ok_0), outv)
            &&& insert_all(empty_store(), outv, 0) is Ok
            &&& ({
                let s1 = insert_all(empty_store(), outv, 0)->Ok_0;
                &&& s1.main is Some
                &&& (match run_model(
                    entry_state(fresh_vm(s1), crate::vm::store_obj(s1, s1.main->Some_0)),
                    u64::MAX as nat,
                ) {
                    RunResV::Halted(c2, _) => c2 == a,
                    _ => false,
                })
                &&& crate::dis::dis_store_model(s1, 0) is Ok
                &&& scratch_outcome(crate::dis::dis_store_model(s1, 0)->Ok_0, b)
            })
        }
}

/// Parses, links, stores and runs the text of an assembly file,
/// returning `main`'s exit code.
#[verifier::rlimit(100)]
pub fn run_scratch_file(source: &str) -> (r: Result<i32, CmdError>)
    ensures
        match r {
            Ok(c) => scratch_outcome(source@, c),
            Err(CmdError::Parse(e)) => parse_file_model(source@) == Err::<
                Seq<crate::parser::ParseV>,
                _,
            >(e@),
            Err(CmdError::Solve(e)) => e == SolverError::Cycle && cycle_outcome(source@),
            Err(CmdError::Store(_)) => false,
            Err(CmdError::Run(RunError::Store(e))) => e == StoreError::MissingMain
                && no_main_outcome(source@),
            Err(CmdError::Run(RunError::Exec(e))) => exec_fail_outcome(source@, e),
            Err(CmdError::Dis(_)) => false,
        },
{
    let parses = match Parser::parse_file(source) {
        Err(e) => {
            return Err(CmdError::Parse(e));
        },
        Ok(ps) => ps,
    };
    let ghost parsesv = crate::parser::parses_view(parses@);
    proof {
        assert(input_view(parses@) =~~= parsesv);
    }
    let resolver = match DynCallResolver::new(parses) {
        Err(e) => {
            proof {
                let (g, c) = choose|g: Seq<Seq<usize>>, c: Seq<int>|
                    crate::resolve_dyn::edge_iff(g, dedup(parsesv)) && #[trigger]
                    crate::toposort::is_cycle(g, c);
                assert(crate::resolve_dyn::edge_iff(
                    g,
                    dedup(parse_file_model(source@)->Ok_0),
                ) && crate::toposort::is_cycle(g, c));
            }
            return Err(CmdError::Solve(e));
        },
        Ok(rr) => rr,
    };
    let ghost inp = objs_view(resolver.objs@);
    let resolved = match resolver.resolve_dyn_calls() {
        Err(e) => {
            proof {
                assert(false);
            }
            return Err(CmdError::Solve(e));
        },
        Ok(out) => out,
    };
    let ghost outv = objs_view(resolved@);
    proof {
        assert(inp == dedup(parsesv));
        assert(linked(dedup(parse_file_model(source@)->Ok_0), outv));
    }
    let mut vm = Vm::new();
    let ghost s0 = vm@.store;
    proof {
        assert(s0 =~~= empty_store());
    }
    let n = resolved.len();
    let mut k: usize = 0;
    while k < n
        invariant
            k <= n,
            n == resolved@.len(),
            outv == objs_view(resolved@),
            parse_file_model(source@) is Ok,
            linked(dedup(parse_file_model(source@)->Ok_0), outv),
            s0 == empty_store(),
            vm.inv(),
            vm@.frames == Seq::<crate::vm::FrameV>::empty(),
            vm@.data_cap == STACK_CAP,
            vm@.call_cap == STACK_CAP,
            vm@.dbg == Seq::<crate::value::ValV>::empty(),
            insert_all(s0, outv, 0) == insert_all(vm@.store, outv, k as int),
        decreases n - k,
    {
        let res = vm.db.insert_code_object_with_name(&resolved[k].1, resolved[k].0.as_str());
        match res {
            Err(e) => {
                proof {
                    assert(insert_model(vm@.store, outv[k as int].0, outv[k as int].1).1
                        == Err::<u128, StoreError>(e));
                    assert(insert_all(vm@.store, outv, k as int) == Err::<StoreV, StoreError>(
                        e,
                    ));
                    assert(insert_all(empty_store(), outv, 0) == Err::<StoreV, StoreError>(e));
                    let psv = parse_file_model(source@)->Ok_0;
                    let gs = crate::parser::split_functions_model(
                        crate::parser::preprocess_model(source@),
                    );
                    crate::parser::lemma_parses_valid_names(gs, 0, psv);
                    crate::resolve_dyn::lemma_dedup_names_from(psv);
                    assert forall|j: int|
                        0 <= j < outv.len() implies crate::valid_name(
                        (#[trigger] outv[j]).0,
                    ) by {
                        assert(has_pair(dedup(psv), outv[j].0));
                        let u = choose|u: int|
                            0 <= u < dedup(psv).len() && (#[trigger] dedup(psv)[u]).0
                                == outv[j].0;
                        let w = choose|w: int|
                            0 <= w < psv.len() && (#[trigger] dedup(psv)[u]).0 == (
                            #[trigger] psv[w]).func_name;
                        assert(crate::valid_name(psv[w].func_name));
                    }
                    lemma_insert_all_ok(empty_store(), outv, 0);
                    assert(false);
                }
                return Err(CmdError::Store(e));
            },
            Ok(_) => {},
        }
        k = k + 1;
    }
    proof {
        assert(insert_all(vm@.store, outv, n as int) == Ok::<StoreV, StoreError>(vm@.store));
        assert(insert_all(s0, outv, 0) == Ok::<StoreV, StoreError>(vm@.store));
    }
    let ghost s1 = vm@.store;
    proof {
        if s1.main is Some {
            assert(entry_state(fresh_vm(s1), crate::vm::store_obj(s1, s1.main->Some_0))
                =~~= entry_state(
                (VmV {
                    frames: Seq::empty(),
                    data_cap: STACK_CAP,
                    call_cap: STACK_CAP,
                    store: s1,
                    dbg: Seq::empty(),
                }),
                crate::vm::store_obj(s1, s1.main->Some_0),
            ));
        }
    }
    match vm.run_main_function() {
        Err(RunError::Store(e)) => {
            proof {
                assert(s1.main is None);
                lemma_insert_all_main(empty_store(), outv, 0);
                let psv = parse_file_model(source@)->Ok_0;
                crate::resolve_dyn::lemma_dedup_complete(psv);
                assert forall|j: int|
                    0 <= j < psv.len() implies (#[trigger] psv[j]).func_name != "main"@ by {
                    if psv[j].func_name == "main"@ {
                        assert(has_pair(dedup(psv), psv[j].func_name));
                        let u = choose|u: int|
                            0 <= u < dedup(psv).len() && (#[trigger] dedup(psv)[u]).0
                                == "main"@;
                        assert(has_pair(outv, dedup(psv)[u].0));
                        let w = choose|w: int|
                            0 <= w < outv.len() && (#[trigger] outv[w]).0 == "main"@;
                        assert(exists|jj: int|
                            0 <= jj < outv.len() && (#[trigger] outv[jj]).0 == "main"@);
                    }
                }
                assert(no_main_outcome(source@));
            }
            Err(CmdError::Run(RunError::Store(e)))
        },
        Err(RunError::Exec(e)) => {
            proof {
                assert(exec_fail_outcome(source@, e));
            }
            Err(CmdError::Run(RunError::Exec(e)))
        },
        Ok(c) => Ok(c),
    }
}

} // verus!

verus! {

/// Runs a source text against a fresh store, disassembles that store,
/// runs the emitted text against another fresh store, and returns both
/// exit codes (the round-trip property expects them to match): the
/// first code is the pipeline's exit for the source, and the second is
/// the pipeline's exit for the dump of the very store the first run
/// used.
#[verifier::rlimit(100)]
#[verifier::spinoff_prover]
pub fn roundtrip_file(source: &str) -> (r: Result<(i32, i32), CmdError>)
    ensures
        match r {
            Ok((a, b)) => roundtrip_outcome(source@, a, b),
            Err(CmdError::Parse(e)) => parse_file_model(source@) == Err::<
                Seq<crate::parser::ParseV>,
                _,
            >(e@) || exists|t: Seq<char>|
                #[trigger] first_pass_dump(source@, t) && parse_file_model(t) == Err::<
                    Seq<crate::parser::ParseV>,
                    _,
                >(e@),
            Err(CmdError::Solve(e)) => e == SolverError::Cycle && (cycle_outcome(source@)
                || exists|t: Seq<char>|
                #[trigger] first_pass_dump(source@, t) && cycle_outcome(t)),
            Err(CmdError::Store(_)) => false,
            Err(CmdError::Run(RunError::Store(e))) => e == StoreError::MissingMain && (
            no_main_outcome(source@) || exists|t: Seq<char>|
                #[trigger] first_pass_dump(source@, t) && no_main_outcome(t)),
            Err(CmdError::Run(RunError::Exec(e))) => exec_fail_outcome(source@, e) || exists|
                t: Seq<char>,
            |
                #[trigger] first_pass_dump(source@, t) && exec_fail_outcome(t, e),
            Err(CmdError::Dis(e)) => dis_fail_outcome(source@, e),
        },
{
    let parses = match Parser::parse_file(source) {
        Err(e) => {
            return Err(CmdError::Parse(e));
        },
        Ok(ps) => ps,
    };
    let ghost parsesv = crate::parser::parses_view(parses@);
    proof {
        assert(input_view(parses@) =~~= parsesv);
    }
    let resolver = match DynCallResolver::new(parses) {
        Err(e) => {
            proof {
                let (g, c) = choose|g: Seq<Seq<usize>>, c: Seq<int>|
                    crate::resolve_dyn::edge_iff(g, dedup(parsesv)) && #[trigger]
                    crate::toposort::is_cycle(g, c);
                assert(crate::resolve_dyn::edge_iff(
                    g,
                    dedup(parse_file_model(source@)->Ok_0),
                ) && crate::toposort::is_cycle(g, c));
            }
            return Err(CmdError::Solve(e));
        },
        Ok(rr) => rr,
    };
    let ghost inp = objs_view(resolver.objs@);
    let resolved = match resolver.resolve_dyn_calls() {
        Err(e) => {
            proof {
                assert(false);
            }
            return Err(CmdError::Solve(e));
        },
        Ok(out) => out,
    };
    let ghost outv = objs_view(resolved@);
    proof {
        assert(inp == dedup(parsesv));
        assert(linked(dedup(parse_file_model(source@)->Ok_0), outv));
    }
    let mut vm = Vm::new();
    let ghost s0 = vm@.store;
    proof {
        assert(s0 =~~= empty_store());
    }
    let n = resolved.len();
    let mut k: usize = 0;
    while k < n
        invariant
            k <= n,
            n == resolved@.len(),
            outv == objs_view(resolved@),
            parse_file_model(source@) is Ok,
            linked(dedup(parse_file_model(source@)->Ok_0), outv),
            s0 == empty_store(),
            vm.inv(),
            vm@.frames == Seq::<crate::vm::FrameV>::empty(),
            vm@.data_cap == STACK_CAP,
            vm@.call_cap == STACK_CAP,
            vm@.dbg == Seq::<crate::value::ValV>::empty(),
            insert_all(s0, outv, 0) == insert_all(vm@.store, outv, k as int),
        decreases n - k,
    {
        let res = vm.db.insert_code_object_with_name(&resolved[k].1, resolved[k].0.as_str());
        match res {
            Err(e) => {
                proof {
                    assert(insert_model(vm@.store, outv[k as int].0, outv[k as int].1).1
                        == Err::<u128, StoreError>(e));
                    assert(insert_all(vm@.store, outv, k as int) == Err::<StoreV, StoreError>(
                        e,
                    ));
                    assert(insert_all(empty_store(), outv, 0) == Err::<StoreV, StoreError>(e));
                    let psv = parse_file_model(source@)->Ok_0;
                    let gs = crate::parser::split_functions_model(
                        crate::parser::preprocess_model(source@),
                    );
                    crate::parser::lemma_parses_valid_names(gs, 0, psv);
                    crate::resolve_dyn::lemma_dedup_names_from(psv);
                    assert forall|j: int|
                        0 <= j < outv.len() implies crate::valid_name(
                        (#[trigger] outv[j]).0,
                    ) by {
                        assert(has_pair(dedup(psv), outv[j].0));
                        let u = choose|u: int|
                            0 <= u < dedup(psv).len() && (#[trigger] dedup(psv)[u]).0
                                == outv[j].0;
                        let w = choose|w: int|
                            0 <= w < psv.len() && (#[trigger] dedup(psv)[u]).0 == (
                            #[trigger] psv[w]).func_name;
                        assert(crate::valid_name(psv[w].func_name));
                    }
                    lemma_insert_all_ok(empty_store(), outv, 0);
                    assert(false);
                }
                return Err(CmdError::Store(e));
            },
            Ok(_) => {},
        }
        k = k + 1;
    }
    proof {
        assert(insert_all(vm@.store, outv, n as int) == Ok::<StoreV, StoreError>(vm@.store));
        assert(insert_all(s0, outv, 0) == Ok::<StoreV, StoreError>(vm@.store));
    }
    let ghost s1 = vm@.store;
    proof {
        if s1.main is Some {
            assert(entry_state(fresh_vm(s1), crate::vm::store_obj(s1, s1.main->Some_0))
                =~~= entry_state(
                (VmV {
                    frames: Seq::empty(),
                    data_cap: STACK_CAP,
                    call_cap: STACK_CAP,
                    store: s1,
                    dbg: Seq::empty(),
                }),
                crate::vm::store_obj(s1, s1.main->Some_0),
            ));
        }
    }
    let a = match vm.run_main_function() {
        Err(RunError::Store(e)) => {
            proof {
                assert(s1.main is None);
                lemma_insert_all_main(empty_store(), outv, 0);
                let psv = parse_file_model(source@)->Ok_0;
                crate::resolve_dyn::lemma_dedup_complete(psv);
                assert forall|j: int|
                    0 <= j < psv.len() implies (#[trigger] psv[j]).func_name != "main"@ by {
                    if psv[j].func_name == "main"@ {
                        assert(has_pair(dedup(psv), psv[j].func_name));
                        let u = choose|u: int|
                            0 <= u < dedup(psv).len() && (#[trigger] dedup(psv)[u]).0
                                == "main"@;
                        assert(has_pair(outv, dedup(psv)[u].0));
                        let w = choose|w: int|
                            0 <= w < outv.len() && (#[trigger] outv[w]).0 == "main"@;
                        assert(exists|jj: int|
                            0 <= jj < outv.len() && (#[trigger] outv[jj]).0 == "main"@);
                    }
                }
                assert(no_main_outcome(source@));
            }
            return Err(CmdError::Run(RunError::Store(e)));
        },
        Err(RunError::Exec(e)) => {
            proof {
                assert(exec_fail_outcome(source@, e));
            }
            return Err(CmdError::Run(RunError::Exec(e)));
        },
        Ok(c) => c,
    };
    proof {
        assert(s1.main is Some);
        assert(run_model(
            entry_state(fresh_vm(s1), crate::vm::store_obj(s1, s1.main->Some_0)),
            u64::MAX as nat,
        ) matches RunResV::Halted(c2, _) && c2 == a);
        assert(vm@.store == s1);
    }
    let dump = match crate::dis::disassemble_store(&vm.db) {
        Err(e) => {
            proof {
                assert(crate::dis::dis_store_model(s1, 0) == Err::<Seq<char>, VmError>(e));
                assert(dis_fail_outcome(source@, e));
            }
            return Err(CmdError::Dis(e));
        },
        Ok(s) => s,
    };
    proof {
        assert(crate::dis::dis_store_model(s1, 0) == Ok::<Seq<char>, VmError>(dump@));
        assert(first_pass_dump(source@, dump@));
    }
    let b = match run_scratch_file(dump.as_str()) {
        Err(e) => {
            proof {
                assert(first_pass_dump(source@, dump@));
            }
            return Err(e);
        },
        Ok(c) => c,
    };
    proof {
        assert(scratch_outcome(dump@, b));
        assert(roundtrip_outcome(source@, a, b));
    }
    Ok((a, b))
}

} // verus!

verus! {

/// Inserting uniquely and validly named functions, none already bound,
/// always succeeds.
proof fn lemma_insert_all_ok(s: StoreV, ps: Seq<(Seq<char>, CodeObjV)>, i: int)
    requires
        0 <= i <= ps.len(),
        names_unique(ps),
        forall|j: int| 0 <= j < ps.len() ==> crate::valid_name((#[trigger] ps[j]).0),
        forall|j: int|
            i <= j < ps.len() ==> !crate::store::has_name(s, (#[trigger] ps[j]).0),
    ensures
        insert_all(s, ps, i) is Ok,
    decreases ps.len() - i,
{
    if i < ps.len() {
        assert(!crate::store::has_name(s, ps[i].0));
        let (s2, r) = insert_model(s, ps[i].0, ps[i].1);
        assert(r is Ok);
        assert forall|j: int|
            i + 1 <= j < ps.len() implies !crate::store::has_name(
            s2,
            (#[trigger] ps[j]).0,
        ) by {
            assert(s2.names =~= s.names.push((ps[i].0, crate::object::obj_hash(ps[i].1))));
            if crate::store::has_name(s2, ps[j].0) {
                let u = choose|u: int|
                    0 <= u < s2.names.len() && (#[trigger] s2.names[u]).0 == ps[j].0;
                if u < s.names.len() {
                    assert(s.names[u].0 == ps[j].0);
                    assert(crate::store::has_name(s, ps[j].0));
                } else {
                    assert(ps[i].0 == ps[j].0);
                    assert(ps[i].0 != ps[j].0);
                }
            }
        }
        lemma_insert_all_ok(s2, ps, i + 1);
    }
}

/// A finished insertion run has an entry point exactly when the initial
/// store had one or a function named `main` was inserted.
proof fn lemma_insert_all_main(s: StoreV, ps: Seq<(Seq<char>, CodeObjV)>, i: int)
    requires
        0 <= i <= ps.len(),
        insert_all(s, ps, i) is Ok,
    ensures
        insert_all(s, ps, i)->Ok_0.main is Some <==> (s.main is Some || exists|j: int|
            i <= j < ps.len() && (#[trigger] ps[j]).0 == "main"@),
    decreases ps.len() - i,
{
    if i < ps.len() {
        let (s2, r) = insert_model(s, ps[i].0, ps[i].1);
        lemma_insert_all_main(s2, ps, i + 1);
        if s2.main is Some && s.main is None {
            assert(ps[i].0 == "main"@);
        }
        assert((s.main is Some || exists|j: int|
            i <= j < ps.len() && (#[trigger] ps[j]).0 == "main"@) <==> (s2.main is Some
            || exists|j: int| i + 1 <= j < ps.len() && (#[trigger] ps[j]).0 == "main"@)) by {
            if s.main is None && s2.main is None {
                if exists|j: int| i <= j < ps.len() && (#[trigger] ps[j]).0 == "main"@ {
                    let j = choose|j: int|
                        i <= j < ps.len() && (#[trigger] ps[j]).0 == "main"@;
                    assert(j != i);
                }
            }
        }
    }
}

} // verus!
