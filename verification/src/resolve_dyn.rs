//! The link pass: computes the dependency graph of the parsed
//! functions, orders it topologically, and hashes the functions from the
//! leaves up, rewriting every symbolic `LoadDyn` whose target is in the
//! input set into a content-addressed `LoadFunc`.

use vstd::prelude::*;
use crate::bytecode::{Bytecode, Instr, InstrV};
use crate::object::{obj_hash, CodeObject, CodeObjV};
use crate::parser::{Parse, ParseV};
use crate::text::str_eq;
use crate::toposort::{
    good_order, graph_view, has_edge, is_cycle, lemma_order_excludes_cycle, toposort, wf_graph,
    SolverError,
};
use crate::CodeHash;

verus! {

/// The views of a vector of named code objects.
pub open spec fn objs_view(v: Seq<(String, CodeObject)>) -> Seq<(Seq<char>, CodeObjV)> {
    Seq::new(
        v.len(),
        |i: int|
            if 0 <= i < v.len() {
                (v[i].0@, v[i].1@)
            } else {
                (Seq::empty(), v[0].1@)
            },
    )
}

/// The views of a vector of parses.
pub open spec fn input_view(v: Seq<Parse>) -> Seq<ParseV> {
    Seq::new(
        v.len(),
        |i: int|
            if 0 <= i < v.len() {
                v[i]@
            } else {
                v[0]@
            },
    )
}

/// True when no two entries share a name.
pub open spec fn names_unique(ps: Seq<(Seq<char>, CodeObjV)>) -> bool {
    forall|i: int, j: int| 0 <= i < j < ps.len() ==> (#[trigger] ps[i]).0 != (#[trigger] ps[j]).0
}

/// True when some entry carries name `n`.
pub open spec fn has_pair(ps: Seq<(Seq<char>, CodeObjV)>, n: Seq<char>) -> bool {
    exists|i: int| 0 <= i < ps.len() && (#[trigger] ps[i]).0 == n
}

/// The object bound to name `n` (meaningful when present and unique).
pub open spec fn assoc_obj(ps: Seq<(Seq<char>, CodeObjV)>, n: Seq<char>) -> CodeObjV {
    let i = choose|i: int| 0 <= i < ps.len() && (#[trigger] ps[i]).0 == n;
    ps[i].1
}

/// True when `o`'s code carries a symbolic reference to `n`.
pub open spec fn mentions(o: CodeObjV, n: Seq<char>) -> bool {
    exists|k: int| 0 <= k < o.code.len() && (#[trigger] o.code[k]) == InstrV::LoadDyn(n)
}

/// One step of deduplication: a repeated name replaces the object in
/// place, a fresh name is appended.
pub open spec fn dedup_step(acc: Seq<(Seq<char>, CodeObjV)>, p: ParseV) -> Seq<
    (Seq<char>, CodeObjV),
> {
    if has_pair(acc, p.func_name) {
        let i = choose|i: int| 0 <= i < acc.len() && (#[trigger] acc[i]).0 == p.func_name;
        acc.update(i, (p.func_name, p.code_obj))
    } else {
        acc.push((p.func_name, p.code_obj))
    }
}

/// The input set: each name bound once, to the last object parsed under
/// it.
pub open spec fn dedup(ps: Seq<ParseV>) -> Seq<(Seq<char>, CodeObjV)>
    decreases ps.len(),
{
    if ps.len() == 0 {
        Seq::empty()
    } else {
        dedup_step(dedup(ps.drop_last()), ps.last())
    }
}

/// Deduplication never repeats a name.
pub proof fn lemma_dedup_unique(ps: Seq<ParseV>)
    ensures
        names_unique(dedup(ps)),
    decreases ps.len(),
{
    if ps.len() > 0 {
        lemma_dedup_unique(ps.drop_last());
    }
}

/// True when `g` is exactly the dependency graph of `objs`: an edge
/// from `i` to `j` when function `i` symbolically references function
/// `j`'s name, self-references excluded.
pub open spec fn edge_iff(g: Seq<Seq<usize>>, objs: Seq<(Seq<char>, CodeObjV)>) -> bool {
    &&& g.len() == objs.len()
    &&& wf_graph(g)
    &&& forall|i: int, j: int|
        0 <= i < objs.len() && 0 <= j < objs.len() ==> (#[trigger] has_edge(g, i, j) <==> (i != j
            && mentions(objs[i].1, objs[j].0)))
}

/// Computes the symbolic references of the parsed functions and orders
/// them so that every function comes before its dependencies.
#[derive(Debug)]
pub struct DynCallResolver {
    /// The input set, one entry per name, in first-definition order.
    pub objs: Vec<(String, CodeObject)>,
    /// The dependency graph over `objs` indices, self-edges excluded.
    pub deps: Vec<Vec<usize>>,
    /// Every function before its dependencies.
    pub hash_order: Vec<usize>,
}

/// The standing facts a well-built resolver carries.
pub open spec fn resolver_wf(r: DynCallResolver) -> bool {
    &&& names_unique(objs_view(r.objs@))
    &&& edge_iff(graph_view(r.deps@), objs_view(r.objs@))
    &&& good_order(graph_view(r.deps@), r.hash_order@)
}

/// Looks a name up among the already-hashed functions.
pub open spec fn lookup_hash(rs: Seq<(Seq<char>, u128)>, n: Seq<char>) -> Option<u128>
    decreases rs.len(),
{
    if rs.len() == 0 {
        None
    } else if rs[0].0 == n {
        Some(rs[0].1)
    } else {
        lookup_hash(rs.skip(1), n)
    }
}

/// The views of a vector of name/hash pairs.
pub open spec fn rs_view(v: Seq<(String, CodeHash)>) -> Seq<(Seq<char>, u128)> {
    Seq::new(
        v.len(),
        |i: int|
            if 0 <= i < v.len() {
                (v[i].0@, v[i].1)
            } else {
                (Seq::empty(), 0u128)
            },
    )
}

/// Looks a name up among the already-hashed functions.
fn lookup_hash_exec(rs: &Vec<(String, CodeHash)>, n: &str) -> (r: Option<CodeHash>)
    ensures
        r == lookup_hash(rs_view(rs@), n@),
{
    let mut k: usize = 0;
    proof {
        assert(rs_view(rs@).skip(0) =~= rs_view(rs@));
    }
    while k < rs.len()
        invariant
            k <= rs@.len(),
            lookup_hash(rs_view(rs@), n@) == lookup_hash(rs_view(rs@).skip(k as int), n@),
        decreases rs@.len() - k,
    {
        proof {
            assert(rs_view(rs@).skip(k as int)[0] == rs_view(rs@)[k as int]);
            assert(rs_view(rs@).skip(k as int).skip(1) =~= rs_view(rs@).skip(k as int + 1));
        }
        if str_eq(rs[k].0.as_str(), n) {
            return Some(rs[k].1);
        }
        k = k + 1;
    }
    proof {
        assert(rs_view(rs@).skip(rs@.len() as int) =~= Seq::<(Seq<char>, u128)>::empty());
    }
    None
}

/// The rewrite of one instruction: a symbolic reference to an
/// already-hashed name becomes a hash reference; everything else stays.
pub open spec fn rewrite_instr(i: InstrV, rs: Seq<(Seq<char>, u128)>) -> InstrV {
    match i {
        InstrV::LoadDyn(m) => match lookup_hash(rs, m) {
            Some(h) => InstrV::LoadFunc(h),
            None => i,
        },
        _ => i,
    }
}

/// Rewrites one code object against the already-hashed names.
fn rewrite_obj(obj: &CodeObject, rs: &Vec<(String, CodeHash)>) -> (r: CodeObject)
    ensures
        r@.argcount == obj@.argcount,
        r@.litpool == obj@.litpool,
        r@.localnames == obj@.localnames,
        r@.labels == obj@.labels,
        r@.code.len() == obj@.code.len(),
        forall|k: int|
            0 <= k < obj@.code.len() ==> (#[trigger] r@.code[k]) == rewrite_instr(
                obj@.code[k],
                rs_view(rs@),
            ),
{
    let mut code: Vec<Instr> = Vec::new();
    let n = obj.code.len();
    let mut k: usize = 0;
    while k < n
        invariant
            k <= n,
            n == obj@.code.len(),
            code@.len() == k,
            forall|t: int|
                0 <= t < k ==> (#[trigger] code@[t]@) == rewrite_instr(
                    obj@.code[t],
                    rs_view(rs@),
                ),
        decreases n - k,
    {
        let ins = obj.code.index(k);
        match ins {
            Instr::LoadDyn(m) => {
                match lookup_hash_exec(rs, m.as_str()) {
                    Some(h) => code.push(Instr::LoadFunc(h)),
                    None => code.push(ins.clone()),
                }
            },
            _ => code.push(ins.clone()),
        }
        k = k + 1;
    }
    let r = CodeObject {
        litpool: crate::object::clone_values(&obj.litpool),
        argcount: obj.argcount,
        localnames: crate::object::clone_strings(&obj.localnames),
        labels: crate::object::clone_usizes(&obj.labels),
        code: Bytecode::new(code),
    };
    proof {
        assert(r@.litpool =~= obj@.litpool);
        assert(r@.localnames =~= obj@.localnames);
    }
    r
}

} // verus!

verus! {

/// Finds the entry bound to `name`, if any.
fn find_in_objs(objs: &Vec<(String, CodeObject)>, name: &str) -> (r: Option<usize>)
    ensures
        match r {
            Some(i) => i < objs@.len() && objs_view(objs@)[i as int].0 == name@,
            None => forall|i: int|
                0 <= i < objs@.len() ==> (#[trigger] objs_view(objs@)[i]).0 != name@,
        },
{
    let mut k: usize = 0;
    while k < objs.len()
        invariant
            k <= objs@.len(),
            forall|i: int| 0 <= i < k ==> (#[trigger] objs_view(objs@)[i]).0 != name@,
        decreases objs@.len() - k,
    {
        if str_eq(objs[k].0.as_str(), name) {
            proof {
                assert(objs_view(objs@)[k as int].0 == name@);
            }
            return Some(k);
        }
        k = k + 1;
    }
    None
}

/// The first `i` adjacency lists mirror the symbolic references
/// exactly.
pub open spec fn deps_iff(
    deps: Seq<Vec<usize>>,
    objsv: Seq<(Seq<char>, CodeObjV)>,
    i: int,
    n: int,
) -> bool {
    forall|u: int, j: int|
        #![trigger deps[u], objsv[j]]
        0 <= u < i && 0 <= j < n ==> ((exists|k: int|
            0 <= k < deps[u]@.len() && (#[trigger] deps[u]@[k]) as int == j) <==> (u != j
            && mentions(objsv[u].1, objsv[j].0)))
}

/// Builds the dependency graph of the input set: an edge from `i` to
/// `j` exactly when function `i` symbolically references function `j`'s
/// name and `i` is not `j`.
#[verifier::rlimit(100)]
fn build_deps(objs: &Vec<(String, CodeObject)>) -> (deps: Vec<Vec<usize>>)
    requires
        names_unique(objs_view(objs@)),
    ensures
        edge_iff(graph_view(deps@), objs_view(objs@)),
{
    let ghost objsv = objs_view(objs@);
    let n = objs.len();
    let mut deps: Vec<Vec<usize>> = Vec::new();
    let mut i: usize = 0;
    while i < n
        invariant
            i <= n,
            n == objs@.len(),
            objsv == objs_view(objs@),
            names_unique(objsv),
            deps@.len() == i,
            forall|u: int, k: int|
                0 <= u < i && 0 <= k < deps@[u]@.len() ==> (#[trigger] deps@[u]@[k]) < n,
            deps_iff(deps@, objsv, i as int, n as int),
        decreases n - i,
    {
        let mut adj: Vec<usize> = Vec::new();
        let code_len = objs[i].1.code.len();
        let mut k: usize = 0;
        while k < code_len
            invariant
                k <= code_len,
                i < n,
                n == objs@.len(),
                objsv == objs_view(objs@),
                names_unique(objsv),
                code_len == objsv[i as int].1.code.len(),
                deps@.len() == i,
                forall|u: int, kx: int|
                    0 <= u < i && 0 <= kx < deps@[u]@.len() ==> (#[trigger] deps@[u]@[kx]) < n,
                deps_iff(deps@, objsv, i as int, n as int),
                forall|s: int|
                    0 <= s < adj@.len() ==> (#[trigger] adj@[s]) < n && adj@[s] as int
                        != i as int && mentions(objsv[i as int].1, objsv[adj@[s] as int].0),
                forall|j: int|
                    #![trigger objsv[j]]
                    0 <= j < n && j != i as int && (exists|kk: int|
                        0 <= kk < k && (#[trigger] objsv[i as int].1.code[kk])
                            == InstrV::LoadDyn(objsv[j].0)) ==> exists|s: int|
                        0 <= s < adj@.len() && (#[trigger] adj@[s]) as int == j,
            decreases code_len - k,
        {
            let ghost adj_before = adj@;
            let ins_is_dyn: Option<usize> = match objs[i].1.code.index(k) {
                Instr::LoadDyn(m) => {
                    proof {
                        assert(objsv[i as int].1.code[k as int] == InstrV::LoadDyn(m@));
                    }
                    match find_in_objs(&objs, m.as_str()) {
                        Some(j) => {
                            proof {
                                assert(objsv[j as int].0 == m@);
                            }
                            Some(j)
                        },
                        None => {
                            proof {
                                assert(forall|jx: int|
                                    0 <= jx < n ==> (#[trigger] objsv[jx]).0 != m@);
                            }
                            None
                        },
                    }
                },
                _ => None,
            };
            let ghost cur = objsv[i as int].1.code[k as int];
            match ins_is_dyn {
                Some(j) if j != i => {
                    adj.push(j);
                    proof {
                        assert(mentions(objsv[i as int].1, objsv[j as int].0)) by {
                            assert(objsv[i as int].1.code[k as int] == InstrV::LoadDyn(
                                objsv[j as int].0,
                            ));
                        }
                    }
                },
                _ => {},
            }
            proof {
                assert forall|jx: int|
                    #![trigger objsv[jx]]
                    0 <= jx < n && jx != i as int && (exists|kk: int|
                        0 <= kk < k + 1 && (#[trigger] objsv[i as int].1.code[kk])
                            == InstrV::LoadDyn(objsv[jx].0)) implies exists|s: int|
                    0 <= s < adj@.len() && (#[trigger] adj@[s]) as int == jx by {
                    let kk = choose|kk: int|
                        0 <= kk < k + 1 && (#[trigger] objsv[i as int].1.code[kk])
                            == InstrV::LoadDyn(objsv[jx].0);
                    if kk < k as int {
                        assert(exists|kk2: int|
                            0 <= kk2 < k && (#[trigger] objsv[i as int].1.code[kk2])
                                == InstrV::LoadDyn(objsv[jx].0));
                        let s = choose|s: int|
                            0 <= s < adj_before.len() && (#[trigger] adj_before[s]) as int
                                == jx;
                        assert(adj@[s] as int == jx);
                    } else {
                        assert(cur == InstrV::LoadDyn(objsv[jx].0));
                        match ins_is_dyn {
                            Some(j) => {
                                assert(objsv[j as int].0 == objsv[jx].0);
                                assert(jx == j as int) by {
                                    if jx != j as int {
                                        if jx < j as int {
                                            assert(objsv[jx].0 != objsv[j as int].0);
                                        } else {
                                            assert(objsv[j as int].0 != objsv[jx].0);
                                        }
                                    }
                                }
                                assert(adj@[adj@.len() - 1] as int == jx);
                            },
                            None => {
                                assert(objsv[jx].0 != objsv[jx].0);
                            },
                        }
                    }
                }
            }
            k = k + 1;
        }
        let ghost dprev = deps@;
        let ghost adjv = adj@;
        proof {
            assert forall|j: int|
                #![trigger objsv[j]]
                0 <= j < n implies ((exists|s: int|
                    0 <= s < adjv.len() && (#[trigger] adjv[s]) as int == j) <==> (i as int != j
                    && mentions(objsv[i as int].1, objsv[j].0))) by {
                if exists|s: int| 0 <= s < adjv.len() && (#[trigger] adjv[s]) as int == j {
                    let s = choose|s: int|
                        0 <= s < adjv.len() && (#[trigger] adjv[s]) as int == j;
                    assert(mentions(objsv[i as int].1, objsv[j].0));
                    assert(i as int != j);
                }
                if i as int != j && mentions(objsv[i as int].1, objsv[j].0) {
                    let kk = choose|kk: int|
                        0 <= kk < objsv[i as int].1.code.len() && (
                        #[trigger] objsv[i as int].1.code[kk]) == InstrV::LoadDyn(objsv[j].0);
                    assert(exists|s: int|
                        0 <= s < adjv.len() && (#[trigger] adjv[s]) as int == j);
                }
            }
        }
        deps.push(adj);
        proof {
            assert(deps@[i as int]@ == adjv);
            assert(forall|u: int| 0 <= u < i ==> #[trigger] deps@[u] == dprev[u]);
            assert(deps_iff(deps@, objsv, i as int + 1, n as int)) by {
                assert forall|u: int, j: int|
                    #![trigger deps@[u], objsv[j]]
                    0 <= u < i + 1 && 0 <= j < n implies ((exists|k: int|
                        0 <= k < deps@[u]@.len() && (#[trigger] deps@[u]@[k]) as int == j)
                        <==> (u != j && mentions(objsv[u].1, objsv[j].0))) by {
                    if u == i as int {
                        assert(deps@[u]@ == adjv);
                    } else {
                        assert(deps@[u] == dprev[u]);
                        assert(dprev[u]@ == deps@[u]@);
                    }
                }
            }
        }
        i = i + 1;
    }
    let ghost g = graph_view(deps@);
    proof {
        assert(edge_iff(g, objsv)) by {
            assert(g.len() == objsv.len());
            assert forall|u: int, kk: int|
                0 <= u < g.len() && 0 <= kk < g[u].len() implies (#[trigger] g[u][kk])
                < g.len() by {
                assert(g[u] == deps@[u]@);
            }
            assert forall|u: int, j: int|
                0 <= u < objsv.len() && 0 <= j < objsv.len() implies (#[trigger] has_edge(
                g,
                u,
                j,
            ) <==> (u != j && mentions(objsv[u].1, objsv[j].0))) by {
                assert(g[u] == deps@[u]@);
                assert(deps@[u] == deps@[u]);
                assert(objsv[j].0 == objsv[j].0);
                if has_edge(g, u, j) {
                    let k = choose|k: int|
                        0 <= k < g[u].len() && (#[trigger] g[u][k]) == j;
                    assert((deps@[u]@[k]) as int == j);
                    assert(exists|k2: int|
                        0 <= k2 < deps@[u]@.len() && (#[trigger] deps@[u]@[k2]) as int == j);
                }
                if u != j && mentions(objsv[u].1, objsv[j].0) {
                    let k = choose|k: int|
                        0 <= k < deps@[u]@.len() && (#[trigger] deps@[u]@[k]) as int == j;
                    assert(g[u][k] == j);
                    assert(has_edge(g, u, j));
                }
            }
        }
    }
    deps
}

impl DynCallResolver {
    /// Builds the input set (last definition of a name wins), its
    /// dependency graph and the hashing order. Fails exactly when the
    /// dependency graph, self-references excluded, has a cycle.
    #[verifier::rlimit(100)]
    pub fn new(nodes: Vec<Parse>) -> (r: Result<DynCallResolver, SolverError>)
        ensures
            match r {
                Ok(rr) => {
                    &&& objs_view(rr.objs@) == dedup(input_view(nodes@))
                    &&& resolver_wf(rr)
                    &&& forall|c: Seq<int>| !#[trigger] is_cycle(graph_view(rr.deps@), c)
                },
                Err(e) => e == SolverError::Cycle && exists|g: Seq<Seq<usize>>, c: Seq<int>|
                    edge_iff(g, dedup(input_view(nodes@))) && #[trigger] is_cycle(g, c),
            },
    {
        let ghost inputv = input_view(nodes@);
        let mut objs: Vec<(String, CodeObject)> = Vec::new();
        let mut t: usize = 0;
        let n_in = nodes.len();
        proof {
            assert(objs_view(objs@) =~~= dedup(inputv.take(0)));
        }
        while t < n_in
            invariant
                t <= n_in,
                n_in == nodes@.len(),
                inputv == input_view(nodes@),
                objs_view(objs@) == dedup(inputv.take(t as int)),
                names_unique(objs_view(objs@)),
            decreases n_in - t,
        {
            let name = nodes[t].func_name.clone();
            let obj = nodes[t].code_obj.clone();
            let ghost p = inputv[t as int];
            proof {
                assert(name@ == p.func_name);
                assert(obj@ == p.code_obj);
                assert(inputv.take(t as int + 1).drop_last() =~= inputv.take(t as int));
                assert(inputv.take(t as int + 1).last() == p);
            }
            let ghost acc = objs_view(objs@);
            match find_in_objs(&objs, name.as_str()) {
                Some(i) => {
                    objs.set(i, (name, obj));
                    proof {
                        assert(has_pair(acc, p.func_name)) by {
                            assert(acc[i as int].0 == p.func_name);
                        }
                        let ci = choose|ci: int|
                            0 <= ci < acc.len() && (#[trigger] acc[ci]).0 == p.func_name;
                        assert(ci == i as int) by {
                            if ci != i as int {
                                if ci < i as int {
                                    assert(acc[ci].0 != acc[i as int].0);
                                } else {
                                    assert(acc[i as int].0 != acc[ci].0);
                                }
                            }
                        }
                        assert(objs_view(objs@) =~~= dedup_step(acc, p));
                    }
                },
                None => {
                    objs.push((name, obj));
                    proof {
                        assert(!has_pair(acc, p.func_name));
                        assert(objs_view(objs@) =~~= dedup_step(acc, p));
                    }
                },
            }
            proof {
                lemma_dedup_unique(inputv.take(t as int + 1));
            }
            t = t + 1;
        }
        proof {
            assert(inputv.take(inputv.len() as int) =~= inputv);
        }
        let ghost objsv = objs_view(objs@);
        let deps = build_deps(&objs);
        let ghost g = graph_view(deps@);
        proof {
            assert(edge_iff(g, objsv));
        }
        match toposort(&deps) {
            Err(e) => {
                proof {
                    let c = choose|c: Seq<int>| is_cycle(g, c);
                    assert(edge_iff(g, dedup(inputv)) && is_cycle(g, c));
                }
                Err(SolverError::Cycle)
            },
            Ok(order) => {
                let rr = DynCallResolver { objs, deps, hash_order: order };
                proof {
                    assert(good_order(graph_view(rr.deps@), rr.hash_order@));
                    lemma_order_excludes_cycle(graph_view(rr.deps@), rr.hash_order@);
                }
                Ok(rr)
            },
        }
    }
}

} // verus!

verus! {

/// What one instruction of the input becomes in the output: a symbolic
/// reference to another input function becomes a hash reference to that
/// function's rewritten object; self-references and names outside the
/// input set stay symbolic; everything else is untouched.
pub open spec fn rewritten_target(
    i: InstrV,
    n: Seq<char>,
    inp: Seq<(Seq<char>, CodeObjV)>,
    outv: Seq<(Seq<char>, CodeObjV)>,
) -> InstrV {
    match i {
        InstrV::LoadDyn(m) => if has_pair(inp, m) && m != n {
            InstrV::LoadFunc(obj_hash(assoc_obj(outv, m)))
        } else {
            i
        },
        _ => i,
    }
}

/// Link closure for one output entry: same shape as its input object,
/// with every instruction rewritten as [`rewritten_target`] says.
pub open spec fn rewritten_entry(
    inp: Seq<(Seq<char>, CodeObjV)>,
    outv: Seq<(Seq<char>, CodeObjV)>,
    s: int,
) -> bool {
    let n = outv[s].0;
    let o1 = assoc_obj(inp, n);
    let o2 = outv[s].1;
    &&& has_pair(inp, n)
    &&& o2.argcount == o1.argcount
    &&& o2.litpool == o1.litpool
    &&& o2.localnames == o1.localnames
    &&& o2.labels == o1.labels
    &&& o2.code.len() == o1.code.len()
    &&& forall|k: int|
        0 <= k < o1.code.len() ==> (#[trigger] o2.code[k]) == rewritten_target(
            o1.code[k],
            n,
            inp,
            outv,
        )
}

/// Every hash reference an output entry gained points at a name already
/// in the output.
pub open spec fn targets_present(
    inp: Seq<(Seq<char>, CodeObjV)>,
    outv: Seq<(Seq<char>, CodeObjV)>,
    s: int,
) -> bool {
    forall|k: int|
        0 <= k < assoc_obj(inp, outv[s].0).code.len() ==> match #[trigger] assoc_obj(
            inp,
            outv[s].0,
        ).code[k] {
            InstrV::LoadDyn(m) => (has_pair(inp, m) && m != outv[s].0) ==> has_pair(outv, m),
            _ => true,
        }
}

/// With unique names, the association is whatever any matching entry
/// holds.
proof fn lemma_assoc_is(ps: Seq<(Seq<char>, CodeObjV)>, m: Seq<char>, i: int)
    requires
        names_unique(ps),
        0 <= i < ps.len(),
        ps[i].0 == m,
    ensures
        has_pair(ps, m),
        assoc_obj(ps, m) == ps[i].1,
{
    assert(has_pair(ps, m));
    let c = choose|c: int| 0 <= c < ps.len() && (#[trigger] ps[c]).0 == m;
    if c != i {
        if c < i {
            assert(ps[c].0 != ps[i].0);
        } else {
            assert(ps[i].0 != ps[c].0);
        }
    }
}

/// Appending a fresh name moves nothing: presence and association of
/// the old names are unchanged.
proof fn lemma_assoc_push(
    ps: Seq<(Seq<char>, CodeObjV)>,
    e: (Seq<char>, CodeObjV),
    m: Seq<char>,
)
    requires
        has_pair(ps, m),
        names_unique(ps.push(e)),
    ensures
        has_pair(ps.push(e), m),
        assoc_obj(ps.push(e), m) == assoc_obj(ps, m),
{
    assert(names_unique(ps)) by {
        assert(forall|a: int, b: int|
            0 <= a < b < ps.len() ==> (#[trigger] ps.push(e)[a]).0 != (
            #[trigger] ps.push(e)[b]).0);
        assert(forall|a: int| 0 <= a < ps.len() ==> (#[trigger] ps[a]) == ps.push(e)[a]);
    }
    let i = choose|i: int| 0 <= i < ps.len() && (#[trigger] ps[i]).0 == m;
    assert(ps.push(e)[i].0 == m);
    lemma_assoc_is(ps, m, i);
    lemma_assoc_is(ps.push(e), m, i);
}

/// A lookup among the hashed names agrees with the output map: it finds
/// a name exactly when the output holds it, and returns the hash of the
/// output's object for it.
proof fn lemma_lookup_aligned(
    rsv: Seq<(Seq<char>, u128)>,
    outv: Seq<(Seq<char>, CodeObjV)>,
    m: Seq<char>,
)
    requires
        rsv.len() == outv.len(),
        forall|s: int|
            0 <= s < rsv.len() ==> (#[trigger] rsv[s]) == (outv[s].0, obj_hash(outv[s].1)),
        names_unique(outv),
    ensures
        match lookup_hash(rsv, m) {
            Some(h) => has_pair(outv, m) && h == obj_hash(assoc_obj(outv, m)),
            None => !has_pair(outv, m),
        },
    decreases rsv.len(),
{
    if rsv.len() == 0 {
    } else if rsv[0].0 == m {
        assert(outv[0].0 == m);
        let i = choose|i: int| 0 <= i < outv.len() && (#[trigger] outv[i]).0 == m;
        if i != 0 {
            assert(outv[0].0 != outv[i].0);
        }
        assert(assoc_obj(outv, m) == outv[0].1);
    } else {
        assert(forall|s: int|
            0 <= s < rsv.skip(1).len() ==> (#[trigger] rsv.skip(1)[s]) == (
                outv.skip(1)[s].0,
                obj_hash(outv.skip(1)[s].1),
            )) by {
            assert(forall|s: int|
                0 <= s < rsv.len() - 1 ==> #[trigger] rsv.skip(1)[s] == rsv[s + 1]);
            assert(forall|s: int|
                0 <= s < outv.len() - 1 ==> #[trigger] outv.skip(1)[s] == outv[s + 1]);
        }
        assert(names_unique(outv.skip(1))) by {
            assert(forall|s: int|
                0 <= s < outv.len() - 1 ==> #[trigger] outv.skip(1)[s] == outv[s + 1]);
        }
        lemma_lookup_aligned(rsv.skip(1), outv.skip(1), m);
        assert(forall|s: int|
            0 <= s < outv.len() - 1 ==> #[trigger] outv.skip(1)[s] == outv[s + 1]);
        match lookup_hash(rsv.skip(1), m) {
            Some(h) => {
                let i = choose|i: int|
                    0 <= i < outv.skip(1).len() && (#[trigger] outv.skip(1)[i]).0 == m;
                assert(outv[i + 1].0 == m);
                assert(has_pair(outv, m));
                let i2 = choose|i2: int| 0 <= i2 < outv.len() && (#[trigger] outv[i2]).0 == m;
                if i2 == 0 {
                    assert(outv[0].0 == rsv[0].0);
                } else {
                    assert(outv.skip(1)[i2 - 1].0 == m);
                    let i3 = choose|i3: int|
                        0 <= i3 < outv.skip(1).len() && (#[trigger] outv.skip(1)[i3]).0 == m;
                    if i3 != i2 - 1 {
                        if i3 + 1 < i2 {
                            assert(outv[i3 + 1].0 != outv[i2].0);
                        } else {
                            assert(outv[i2].0 != outv[i3 + 1].0);
                        }
                    }
                    assert(assoc_obj(outv, m) == outv[i2].1);
                    assert(assoc_obj(outv.skip(1), m) == outv.skip(1)[i3].1);
                }
            },
            None => {
                if has_pair(outv, m) {
                    let i = choose|i: int|
                        0 <= i < outv.len() && (#[trigger] outv[i]).0 == m;
                    assert(i != 0);
                    assert(outv.skip(1)[i - 1].0 == m);
                    assert(has_pair(outv.skip(1), m));
                }
            },
        }
    }
}

} // verus!

verus! {

impl DynCallResolver {
    /// Hashes the functions from the leaves of the dependency graph up,
    /// rewriting every symbolic reference whose target is in the input
    /// set into a reference to that target's content hash. Names outside
    /// the input set and self-references stay symbolic.
    #[verifier::rlimit(100)]
    pub fn resolve_dyn_calls(self) -> (r: Result<Vec<(String, CodeObject)>, SolverError>)
        requires
            resolver_wf(self),
        ensures
            r is Ok,
            ({
                let inp = objs_view(self.objs@);
                let outv = objs_view(r->Ok_0@);
                &&& names_unique(outv)
                &&& forall|s: int|
                    0 <= s < outv.len() ==> #[trigger] rewritten_entry(inp, outv, s)
                &&& forall|s: int|
                    0 <= s < outv.len() ==> has_pair(inp, (#[trigger] outv[s]).0)
                &&& forall|j: int|
                    0 <= j < inp.len() ==> has_pair(outv, (#[trigger] inp[j]).0)
            }),
    {
        let ghost inp = objs_view(self.objs@);
        let ghost g = graph_view(self.deps@);
        let ghost order = self.hash_order@;
        let mut out: Vec<(String, CodeObject)> = Vec::new();
        let mut resolved: Vec<(String, CodeHash)> = Vec::new();
        let mut t: usize = self.hash_order.len();
        while t > 0
            invariant
                t <= order.len(),
                inp == objs_view(self.objs@),
                g == graph_view(self.deps@),
                order == self.hash_order@,
                names_unique(inp),
                edge_iff(g, inp),
                good_order(g, order),
                out@.len() == order.len() - t,
                resolved@.len() == out@.len(),
                forall|s: int|
                    0 <= s < out@.len() ==> (#[trigger] rs_view(resolved@)[s]) == (
                        objs_view(out@)[s].0,
                        obj_hash(objs_view(out@)[s].1),
                    ),
                forall|s: int|
                    0 <= s < out@.len() ==> (#[trigger] objs_view(out@)[s]).0 == inp[order[
                        order.len() - 1 - s] as int].0,
                names_unique(objs_view(out@)),
                forall|p: int|
                    t <= p < order.len() ==> has_pair(
                        objs_view(out@),
                        inp[(#[trigger] order[p]) as int].0,
                    ),
                forall|s: int|
                    0 <= s < out@.len() ==> #[trigger] rewritten_entry(inp, objs_view(out@), s),
                forall|s: int|
                    0 <= s < out@.len() ==> #[trigger] targets_present(inp, objs_view(out@), s),
                forall|s: int|
                    0 <= s < out@.len() ==> has_pair(inp, (#[trigger] objs_view(out@)[s]).0),
            decreases t,
        {
            t = t - 1;
            let idx = self.hash_order[t];
            proof {
                assert(order[t as int] < inp.len());
            }
            let name = self.objs[idx].0.clone();
            let ghost nm = name@;
            let ghost outv0 = objs_view(out@);
            let ghost rsv0 = rs_view(resolved@);
            proof {
                assert(nm == inp[idx as int].0);
                lemma_assoc_is(inp, nm, idx as int);
                assert(!has_pair(outv0, nm)) by {
                    if has_pair(outv0, nm) {
                        let s = choose|s: int|
                            0 <= s < outv0.len() && (#[trigger] outv0[s]).0 == nm;
                        let p = order.len() - 1 - s;
                        assert(outv0[s].0 == inp[order[p] as int].0);
                        assert(t < p < order.len());
                        assert(order[p] != order[t as int]);
                        let a = order[p] as int;
                        let b = idx as int;
                        assert(inp[a].0 == inp[b].0);
                        if a < b {
                            assert(inp[a].0 != inp[b].0);
                        } else {
                            assert(inp[b].0 != inp[a].0);
                        }
                    }
                }
            }
            let newobj = rewrite_obj(&self.objs[idx].1, &resolved);
            let h = newobj.hash();
            let ghost e = (nm, newobj@);
            let ghost outv1 = outv0.push(e);
            proof {
                assert(names_unique(outv1)) by {
                    assert forall|a: int, b: int|
                        0 <= a < b < outv1.len() implies (#[trigger] outv1[a]).0 != (
                        #[trigger] outv1[b]).0 by {
                        if b == outv1.len() - 1 {
                            assert(outv1[a] == outv0[a]);
                            if outv1[a].0 == nm {
                                assert(has_pair(outv0, nm)) by {
                                    assert(outv0[a].0 == nm);
                                }
                            }
                        } else {
                            assert(outv1[a] == outv0[a]);
                            assert(outv1[b] == outv0[b]);
                        }
                    }
                }
                assert(forall|m: Seq<char>|
                    #[trigger] has_pair(outv0, m) ==> has_pair(outv1, m) && assoc_obj(outv1, m)
                        == assoc_obj(outv0, m)) by {
                    assert forall|m: Seq<char>| #[trigger] has_pair(outv0, m) implies has_pair(
                        outv1,
                        m,
                    ) && assoc_obj(outv1, m) == assoc_obj(outv0, m) by {
                        lemma_assoc_push(outv0, e, m);
                    }
                }
                assert(has_pair(outv1, nm)) by {
                    assert(outv1[outv1.len() - 1].0 == nm);
                }
                lemma_assoc_is(outv1, nm, outv1.len() as int - 1);
                assert(rewritten_entry(inp, outv1, outv1.len() - 1)) by {
                    let o1 = assoc_obj(inp, nm);
                    assert(o1 == inp[idx as int].1);
                    assert forall|k: int| 0 <= k < o1.code.len() implies (
                    #[trigger] newobj@.code[k]) == rewritten_target(o1.code[k], nm, inp, outv1)
                        by {
                        assert(newobj@.code[k] == rewrite_instr(o1.code[k], rsv0));
                        match o1.code[k] {
                            InstrV::LoadDyn(m) => {
                                lemma_lookup_aligned(rsv0, outv0, m);
                                match lookup_hash(rsv0, m) {
                                    Some(hm) => {
                                        assert(has_pair(outv0, m));
                                        assert(m != nm);
                                        assert(has_pair(inp, m)) by {
                                            let s = choose|s: int|
                                                0 <= s < outv0.len() && (#[trigger] outv0[s]).0
                                                    == m;
                                            assert(has_pair(inp, outv0[s].0));
                                        }
                                        assert(assoc_obj(outv1, m) == assoc_obj(outv0, m));
                                    },
                                    None => {
                                        assert(!has_pair(outv0, m));
                                        if has_pair(inp, m) && m != nm {
                                            let j = choose|j: int|
                                                0 <= j < inp.len() && (#[trigger] inp[j]).0 == m;
                                            assert(j != idx as int);
                                            assert(mentions(inp[idx as int].1, inp[j].0)) by {
                                                assert(o1.code[k] == InstrV::LoadDyn(inp[j].0));
                                            }
                                            assert(has_edge(g, idx as int, j));
                                            assert(has_edge(g, order[t as int] as int, j));
                                            let p = choose|p: int|
                                                t < p < order.len() && #[trigger] order[p] == j;
                                            assert(has_pair(outv0, inp[order[p] as int].0));
                                            assert(has_pair(outv0, m));
                                        }
                                    },
                                }
                            },
                            _ => {},
                        }
                    }
                }
                assert(targets_present(inp, outv1, outv1.len() - 1)) by {
                    let o1 = assoc_obj(inp, nm);
                    assert forall|k: int| 0 <= k < o1.code.len() implies match #[trigger] o1.code[k] {
                        InstrV::LoadDyn(m) => (has_pair(inp, m) && m != nm) ==> has_pair(
                            outv1,
                            m,
                        ),
                        _ => true,
                    } by {
                        match o1.code[k] {
                            InstrV::LoadDyn(m) => {
                                if has_pair(inp, m) && m != nm {
                                    lemma_lookup_aligned(rsv0, outv0, m);
                                    match lookup_hash(rsv0, m) {
                                        Some(hm) => {
                                            assert(has_pair(outv0, m));
                                        },
                                        None => {
                                            let j = choose|j: int|
                                                0 <= j < inp.len() && (#[trigger] inp[j]).0 == m;
                                            assert(j != idx as int);
                                            assert(mentions(inp[idx as int].1, inp[j].0)) by {
                                                assert(o1.code[k] == InstrV::LoadDyn(inp[j].0));
                                            }
                                            assert(has_edge(g, order[t as int] as int, j));
                                            let p = choose|p: int|
                                                t < p < order.len() && #[trigger] order[p] == j;
                                            assert(has_pair(outv0, inp[order[p] as int].0));
                                        },
                                    }
                                    assert(has_pair(outv1, m));
                                }
                            },
                            _ => {},
                        }
                    }
                }
                assert forall|s: int|
                    0 <= s < outv0.len() implies #[trigger] rewritten_entry(inp, outv1, s) by {
                    assert(outv1[s] == outv0[s]);
                    assert(rewritten_entry(inp, outv0, s));
                    assert(targets_present(inp, outv0, s));
                    let n2 = outv0[s].0;
                    let o1 = assoc_obj(inp, n2);
                    let o2 = outv0[s].1;
                    assert forall|k: int| 0 <= k < o1.code.len() implies (#[trigger] o2.code[k])
                        == rewritten_target(o1.code[k], n2, inp, outv1) by {
                        assert(o2.code[k] == rewritten_target(o1.code[k], n2, inp, outv0));
                        match o1.code[k] {
                            InstrV::LoadDyn(m) => {
                                if has_pair(inp, m) && m != n2 {
                                    assert(has_pair(outv0, m));
                                    assert(assoc_obj(outv1, m) == assoc_obj(outv0, m));
                                }
                            },
                            _ => {},
                        }
                    }
                }
                assert forall|s: int|
                    0 <= s < outv0.len() implies #[trigger] targets_present(inp, outv1, s) by {
                    assert(outv1[s] == outv0[s]);
                    assert(targets_present(inp, outv0, s));
                    let n2 = outv0[s].0;
                    let o1 = assoc_obj(inp, n2);
                    assert forall|k: int| 0 <= k < o1.code.len() implies match #[trigger] o1.code[k] {
                        InstrV::LoadDyn(m) => (has_pair(inp, m) && m != outv1[s].0)
                            ==> has_pair(outv1, m),
                        _ => true,
                    } by {
                        match o1.code[k] {
                            InstrV::LoadDyn(m) => {
                                if has_pair(inp, m) && m != n2 {
                                    assert(has_pair(outv0, m));
                                    assert(has_pair(outv1, m));
                                }
                            },
                            _ => {},
                        }
                    }
                }
            }
            resolved.push((name.clone(), h));
            out.push((name, newobj));
            proof {
                assert(objs_view(out@) =~~= outv1);
                assert(objs_view(out@) == outv1);
                assert(rs_view(resolved@) =~~= rsv0.push((nm, h)));
                assert forall|s: int|
                    0 <= s < out@.len() implies #[trigger] rewritten_entry(
                    inp,
                    objs_view(out@),
                    s,
                ) by {
                    if s < outv0.len() {
                        assert(rewritten_entry(inp, outv1, s));
                    } else {
                        assert(s == outv1.len() - 1);
                        assert(rewritten_entry(inp, outv1, s));
                    }
                }
                assert forall|s: int|
                    0 <= s < out@.len() implies #[trigger] targets_present(
                    inp,
                    objs_view(out@),
                    s,
                ) by {
                    if s < outv0.len() {
                        assert(targets_present(inp, outv1, s));
                    } else {
                        assert(s == outv1.len() - 1);
                        assert(targets_present(inp, outv1, s));
                    }
                }
                assert forall|p: int| t <= p < order.len() implies has_pair(
                    objs_view(out@),
                    inp[(#[trigger] order[p]) as int].0,
                ) by {
                    if p == t as int {
                        assert(outv1[outv1.len() - 1].0 == nm);
                    } else {
                        assert(has_pair(outv0, inp[order[p] as int].0));
                        let s = choose|s: int|
                            0 <= s < outv0.len() && (#[trigger] outv0[s]).0 == inp[order[
                            p] as int].0;
                        assert(outv1[s].0 == inp[order[p] as int].0);
                    }
                }
            }
        }
        proof {
            let outv = objs_view(out@);
            assert forall|j: int| 0 <= j < inp.len() implies has_pair(
                outv,
                (#[trigger] inp[j]).0,
            ) by {
                assert(crate::toposort::appears(order, j));
                let p = choose|p: int|
                    0 <= p < order.len() && (#[trigger] order[p]) as int == j;
                assert(has_pair(outv, inp[order[p] as int].0));
            }
        }
        Ok(out)
    }
}

} // verus!

verus! {

/// Every name of the deduplicated input set is a parsed function's name.
pub proof fn lemma_dedup_names_from(ps: Seq<ParseV>)
    ensures
        forall|i: int|
            0 <= i < dedup(ps).len() ==> exists|j: int|
                0 <= j < ps.len() && (#[trigger] dedup(ps)[i]).0 == (#[trigger] ps[j]).func_name,
    decreases ps.len(),
{
    if ps.len() > 0 {
        lemma_dedup_names_from(ps.drop_last());
        let prev = dedup(ps.drop_last());
        let p = ps.last();
        assert forall|i: int| 0 <= i < dedup(ps).len() implies exists|j: int|
            0 <= j < ps.len() && (#[trigger] dedup(ps)[i]).0 == (#[trigger] ps[j]).func_name by {
            if has_pair(prev, p.func_name) {
                let u = choose|u: int|
                    0 <= u < prev.len() && (#[trigger] prev[u]).0 == p.func_name;
                if i == u {
                    assert(dedup(ps)[i].0 == p.func_name);
                    assert(ps[ps.len() - 1].func_name == p.func_name);
                } else {
                    assert(dedup(ps)[i] == prev[i]);
                    let j = choose|j: int|
                        0 <= j < ps.drop_last().len() && (#[trigger] prev[i]).0 == (
                        #[trigger] ps.drop_last()[j]).func_name;
                    assert(ps[j].func_name == ps.drop_last()[j].func_name);
                }
            } else {
                if i == prev.len() {
                    assert(dedup(ps)[i].0 == p.func_name);
                    assert(ps[ps.len() - 1].func_name == p.func_name);
                } else {
                    assert(dedup(ps)[i] == prev[i]);
                    let j = choose|j: int|
                        0 <= j < ps.drop_last().len() && (#[trigger] prev[i]).0 == (
                        #[trigger] ps.drop_last()[j]).func_name;
                    assert(ps[j].func_name == ps.drop_last()[j].func_name);
                }
            }
        }
    }
}

} // verus!

verus! {

/// Every parsed function's name survives deduplication.
pub proof fn lemma_dedup_complete(ps: Seq<ParseV>)
    ensures
        forall|j: int|
            0 <= j < ps.len() ==> has_pair(dedup(ps), (#[trigger] ps[j]).func_name),
    decreases ps.len(),
{
    if ps.len() > 0 {
        lemma_dedup_complete(ps.drop_last());
        let prev = dedup(ps.drop_last());
        let p = ps.last();
        assert forall|j: int| 0 <= j < ps.len() implies has_pair(
            dedup(ps),
            (#[trigger] ps[j]).func_name,
        ) by {
            if j == ps.len() - 1 {
                if has_pair(prev, p.func_name) {
                    let u = choose|u: int|
                        0 <= u < prev.len() && (#[trigger] prev[u]).0 == p.func_name;
                    assert(dedup(ps)[u].0 == p.func_name);
                } else {
                    assert(dedup(ps)[prev.len() as int].0 == p.func_name);
                }
            } else {
                assert(ps.drop_last()[j] == ps[j]);
                assert(has_pair(prev, ps[j].func_name));
                let u = choose|u: int|
                    0 <= u < prev.len() && (#[trigger] prev[u]).0 == ps[j].func_name;
                if has_pair(prev, p.func_name) {
                    let w = choose|w: int|
                        0 <= w < prev.len() && (#[trigger] prev[w]).0 == p.func_name;
                    if u == w {
                        assert(dedup(ps)[u].0 == p.func_name);
                        assert(p.func_name == ps[j].func_name);
                    } else {
                        assert(dedup(ps)[u] == prev[u]);
                    }
                } else {
                    assert(dedup(ps)[u] == prev[u]);
                }
            }
        }
    }
}

} // verus!
