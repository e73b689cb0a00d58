//! The dependence graph of the functions in a store: nodes are named
//! code objects, directed edges are call sites. A call site is a
//! `LoadFunc` or `LoadDyn` immediately followed by `Call` among the
//! call-shaped instructions; `CallSelf` adds a self edge.

use vstd::prelude::*;
use crate::bytecode::{Bytecode, Instr, InstrV};
use crate::store::{has_name, has_obj, Store, StoreError, StoreV};
use crate::vm::{name_hash, store_obj};
use crate::CodeHash;

verus! {

/// A function in the graph: its content hash and one of its names.
#[derive(Debug, Clone, PartialEq, Eq, Hash)]
pub struct Node {
    /// The content hash of the function.
    pub hash: CodeHash,
    /// The name the store binds it under.
    pub name: String,
}

/// The mathematical shape of a node.
pub struct NodeV {
    pub hash: u128,
    pub name: Seq<char>,
}

impl View for Node {
    type V = NodeV;

    open spec fn view(&self) -> NodeV {
        NodeV { hash: self.hash, name: self.name@ }
    }
}

/// The views of a vector of nodes.
pub open spec fn nodes_view(v: Seq<Node>) -> Seq<NodeV> {
    Seq::new(
        v.len(),
        |i: int|
            if 0 <= i < v.len() {
                v[i]@
            } else {
                NodeV { hash: 0, name: Seq::empty() }
            },
    )
}

/// True when the instruction takes part in a call site.
pub open spec fn callish(i: InstrV) -> bool {
    match i {
        InstrV::Call => true,
        InstrV::CallSelf => true,
        InstrV::LoadFunc(_) => true,
        InstrV::LoadDyn(_) => true,
        _ => false,
    }
}

/// The call-shaped instructions of a body, in order, from `i` on.
pub open spec fn call_shaped(code: Seq<InstrV>, i: int) -> Seq<InstrV>
    decreases code.len() - i,
{
    if i >= code.len() {
        Seq::empty()
    } else if callish(code[i]) {
        seq![code[i]] + call_shaped(code, i + 1)
    } else {
        call_shaped(code, i + 1)
    }
}

/// The first name the store binds to `h`, scanning from `i`.
pub open spec fn first_name_from(names: Seq<(Seq<char>, u128)>, h: u128, i: int) -> Option<
    Seq<char>,
>
    decreases names.len() - i,
{
    if i >= names.len() {
        None
    } else if names[i].1 == h {
        Some(names[i].0)
    } else {
        first_name_from(names, h, i + 1)
    }
}

/// The dependencies named by the overlapping windows of the call-shaped
/// subsequence `f`, from window `t` on: a hash reference followed by
/// `Call` depends on that hash's first name; a symbolic reference
/// followed by `Call` depends on that name's binding. An unnamed hash
/// or an unbound name is an error.
pub open spec fn win_deps(f: Seq<InstrV>, s: StoreV, t: int) -> Result<Seq<NodeV>, StoreError>
    decreases f.len() - t,
{
    if t + 1 >= f.len() {
        Ok(Seq::empty())
    } else {
        match (f[t], f[t + 1]) {
            (InstrV::LoadFunc(h), InstrV::Call) => match first_name_from(s.names, h, 0) {
                None => Err(StoreError::UnknownName),
                Some(n) => match win_deps(f, s, t + 1) {
                    Ok(rest) => Ok(seq![NodeV { hash: h, name: n }] + rest),
                    Err(e) => Err(e),
                },
            },
            (InstrV::LoadDyn(n), InstrV::Call) => if !has_name(s, n) {
                Err(StoreError::UnknownName)
            } else {
                match win_deps(f, s, t + 1) {
                    Ok(rest) => Ok(seq![NodeV { hash: name_hash(s, n), name: n }] + rest),
                    Err(e) => Err(e),
                }
            },
            _ => win_deps(f, s, t + 1),
        }
    }
}

/// The exact dependency list of one node: the windowed dependencies of
/// its object's call-shaped instructions, and the node itself appended
/// once more exactly when the body calls itself.
pub open spec fn solved_deps(s: StoreV, n: NodeV, deps: Seq<NodeV>) -> bool {
    &&& has_obj(s, n.hash)
    &&& ({
        let f = call_shaped(store_obj(s, n.hash).code, 0);
        &&& win_deps(f, s, 0) is Ok
        &&& deps == (if exists|k: int|
            0 <= k < f.len() && #[trigger] f[k] == InstrV::CallSelf {
            win_deps(f, s, 0)->Ok_0.push(n)
        } else {
            win_deps(f, s, 0)->Ok_0
        })
    })
}

/// The dependence graph of the functions in a store.
#[derive(Debug)]
pub struct DepGraph<'s> {
    /// One entry per binding: the node and its dependencies.
    pub graph: Vec<(Node, Vec<Node>)>,
    /// The store the nodes live in.
    pub node_store: &'s Store,
}

/// Finds the first name bound to `h`, scanning from `i`.
fn first_name_exec(fns: &Vec<(String, CodeHash)>, h: CodeHash, i: usize) -> (r: Option<String>)
    requires
        i <= fns@.len(),
    ensures
        match r {
            Some(n) => first_name_from(crate::resolve_dyn::rs_view(fns@), h, i as int)
                == Some(n@),
            None => first_name_from(crate::resolve_dyn::rs_view(fns@), h, i as int) is None,
        },
    decreases fns@.len() - i,
{
    if i >= fns.len() {
        None
    } else if fns[i].1 == h {
        proof {
            assert(crate::resolve_dyn::rs_view(fns@)[i as int] == (fns@[i as int].0@, h));
        }
        Some(fns[i].0.clone())
    } else {
        first_name_exec(fns, h, i + 1)
    }
}

/// Collects the call-shaped instructions of a bytecode body from `i`
/// on.
fn call_shaped_exec(code: &Bytecode, i: usize) -> (r: Vec<Instr>)
    requires
        i <= code@.len(),
    ensures
        Bytecode::new_view(r@) == call_shaped(code@, i as int),
    decreases code@.len() - i,
{
    if i >= code.len() {
        let r: Vec<Instr> = Vec::new();
        proof {
            assert(Bytecode::new_view(r@) =~= call_shaped(code@, i as int));
        }
        return r;
    }
    let ins = code.index(i);
    let keep = match ins {
        Instr::Call => true,
        Instr::CallSelf => true,
        Instr::LoadFunc(_) => true,
        Instr::LoadDyn(_) => true,
        _ => false,
    };
    let mut rest = call_shaped_exec(code, i + 1);
    if keep {
        rest.insert(0, ins.clone());
        proof {
            assert(Bytecode::new_view(rest@) =~~= call_shaped(code@, i as int));
        }
        rest
    } else {
        rest
    }
}

impl<'s> DepGraph<'s> {
    /// An empty graph over the given store.
    pub fn new(store: &'s Store) -> (r: DepGraph<'s>)
        ensures
            r.graph@.len() == 0,
            r.node_store == store,
    {
        DepGraph { graph: Vec::new(), node_store: store }
    }

    /// Resolves the windowed dependencies from window `t` on.
    fn win_deps_rec(&self, shaped: &Vec<Instr>, fns: &Vec<(String, CodeHash)>, t: usize) -> (r:
        Result<Vec<Node>, StoreError>)
        requires
            self.node_store.wf(),
            crate::resolve_dyn::rs_view(fns@) == self.node_store@.names,
            t <= shaped@.len(),
        ensures
            match r {
                Ok(deps) => win_deps(
                    Bytecode::new_view(shaped@),
                    self.node_store@,
                    t as int,
                ) == Ok::<Seq<NodeV>, StoreError>(nodes_view(deps@)),
                Err(e) => win_deps(Bytecode::new_view(shaped@), self.node_store@, t as int)
                    == Err::<Seq<NodeV>, StoreError>(e),
            },
        decreases shaped@.len() - t,
    {
        let ghost f = Bytecode::new_view(shaped@);
        let ghost sv = self.node_store@;
        if shaped.len() - t < 2 {
            let r: Vec<Node> = Vec::new();
            proof {
                assert(nodes_view(r@) =~= Seq::<NodeV>::empty());
            }
            return Ok(r);
        }
        proof {
            assert(f[t as int] == shaped@[t as int]@);
            assert(f[t as int + 1] == shaped@[t as int + 1]@);
        }
        let next_is_call = matches!(&shaped[t + 1], Instr::Call);
        if next_is_call {
            match &shaped[t] {
                Instr::LoadFunc(h) => {
                    match first_name_exec(fns, *h, 0) {
                        None => {
                            return Err(StoreError::UnknownName);
                        },
                        Some(nme) => {
                            match self.win_deps_rec(shaped, fns, t + 1) {
                                Err(e) => Err(e),
                                Ok(mut rest) => {
                                    rest.insert(0, Node { hash: *h, name: nme });
                                    proof {
                                        assert(nodes_view(rest@) =~~= win_deps(
                                            f,
                                            sv,
                                            t as int,
                                        )->Ok_0);
                                    }
                                    Ok(rest)
                                },
                            }
                        },
                    }
                },
                Instr::LoadDyn(nm) => {
                    match self.node_store.get_code_object_by_name(nm.as_str()) {
                        Err(e) => {
                            proof {
                                assert(!has_name(sv, nm@));
                            }
                            Err(e)
                        },
                        Ok((h2, _)) => {
                            proof {
                                assert(has_name(sv, nm@)) by {
                                    let i = choose|i: int|
                                        0 <= i < sv.names.len() && #[trigger] sv.names[i] == (
                                        nm@,
                                        h2,
                                        );
                                    assert(sv.names[i].0 == nm@);
                                }
                                assert(h2 == name_hash(sv, nm@)) by {
                                    let i = choose|i: int|
                                        0 <= i < sv.names.len() && #[trigger] sv.names[i] == (
                                        nm@,
                                        h2,
                                        );
                                    let j = choose|j: int|
                                        0 <= j < sv.names.len() && (#[trigger] sv.names[j]).0
                                            == nm@;
                                    if i != j {
                                        assert(sv.names[i].0 != sv.names[j].0);
                                    }
                                }
                            }
                            match self.win_deps_rec(shaped, fns, t + 1) {
                                Err(e) => Err(e),
                                Ok(mut rest) => {
                                    rest.insert(0, Node { hash: h2, name: nm.clone() });
                                    proof {
                                        assert(nodes_view(rest@) =~~= win_deps(
                                            f,
                                            sv,
                                            t as int,
                                        )->Ok_0);
                                    }
                                    Ok(rest)
                                },
                            }
                        },
                    }
                },
                _ => self.win_deps_rec(shaped, fns, t + 1),
            }
        } else {
            self.win_deps_rec(shaped, fns, t + 1)
        }
    }

    /// The dependencies of one node: one entry per `LoadFunc`-`Call` or
    /// `LoadDyn`-`Call` pair among the call-shaped instructions of its
    /// object, in order, and the node itself once more exactly when the
    /// body holds `CallSelf`. Fails when the hash is not stored, a
    /// referenced hash has no name, or a symbolic name is unbound.
    pub fn solve_node(&self, node: &Node) -> (r: Result<Vec<Node>, StoreError>)
        requires
            self.node_store.wf(),
        ensures
            match r {
                Ok(deps) => solved_deps(self.node_store@, node@, nodes_view(deps@)),
                Err(e) => (e == StoreError::MissingHash && !has_obj(
                    self.node_store@,
                    node@.hash,
                )) || (has_obj(self.node_store@, node@.hash) && win_deps(
                    call_shaped(store_obj(self.node_store@, node@.hash).code, 0),
                    self.node_store@,
                    0,
                ) == Err::<Seq<NodeV>, StoreError>(e)),
            },
    {
        let ghost sv = self.node_store@;
        let obj = match self.node_store.get_code_object(&node.hash) {
            Err(e) => {
                return Err(e);
            },
            Ok(o) => o,
        };
        proof {
            assert(has_obj(sv, node@.hash)) by {
                let i = choose|i: int|
                    0 <= i < sv.objects.len() && #[trigger] sv.objects[i] == (node@.hash, obj@);
                assert(sv.objects[i].0 == node@.hash);
            }
            assert(obj@ == store_obj(sv, node@.hash)) by {
                let i = choose|i: int|
                    0 <= i < sv.objects.len() && #[trigger] sv.objects[i] == (node@.hash, obj@);
                let j = choose|j: int|
                    0 <= j < sv.objects.len() && (#[trigger] sv.objects[j]).0 == node@.hash;
                if i != j {
                    assert(sv.objects[i].0 != sv.objects[j].0);
                }
            }
        }
        let shaped = call_shaped_exec(&obj.code, 0);
        let ghost f = call_shaped(store_obj(sv, node@.hash).code, 0);
        proof {
            assert(Bytecode::new_view(shaped@) == f);
        }
        let fns = self.node_store.get_functions();
        proof {
            assert(crate::resolve_dyn::rs_view(fns@) =~~= sv.names);
        }
        let mut has_self = false;
        let n = shaped.len();
        let mut k: usize = 0;
        while k < n
            invariant
                k <= n,
                n == shaped@.len(),
                f == Bytecode::new_view(shaped@),
                has_self == exists|j: int| 0 <= j < k && #[trigger] f[j] == InstrV::CallSelf,
            decreases n - k,
        {
            proof {
                assert(f[k as int] == shaped@[k as int]@);
            }
            match &shaped[k] {
                Instr::CallSelf => {
                    has_self = true;
                    proof {
                        assert(f[k as int] == InstrV::CallSelf);
                    }
                },
                _ => {},
            }
            k = k + 1;
        }
        let mut deps = match self.win_deps_rec(&shaped, &fns, 0) {
            Err(e) => {
                return Err(e);
            },
            Ok(ds) => ds,
        };
        if has_self {
            deps.push(Node { hash: node.hash, name: node.name.clone() });
            proof {
                assert(nodes_view(deps@) =~~= win_deps(f, sv, 0)->Ok_0.push(node@));
            }
        }
        Ok(deps)
    }

    /// Solves every binding of the store, in binding order, and records
    /// the edges: one graph entry per binding, carrying exactly that
    /// node's dependency list.
    pub fn solve_static(&mut self) -> (r: Result<(), StoreError>)
        requires
            old(self).node_store.wf(),
        ensures
            final(self).node_store == old(self).node_store,
            r is Ok ==> {
                &&& final(self).graph@.len() == final(self).node_store@.names.len()
                &&& forall|i: int|
                    0 <= i < final(self).graph@.len()
                        ==> (#[trigger] final(self).graph@[i].0)@.name
                        == final(self).node_store@.names[i].0
                        && final(self).graph@[i].0@.hash == final(self).node_store@.names[i].1
                &&& forall|i: int|
                    0 <= i < final(self).graph@.len() ==> #[trigger] solved_deps(
                        final(self).node_store@,
                        final(self).graph@[i].0@,
                        nodes_view(final(self).graph@[i].1@),
                    )
            },
    {
        let ghost sv = self.node_store@;
        let fns = self.node_store.get_functions();
        let n = fns.len();
        let mut k: usize = 0;
        let mut out: Vec<(Node, Vec<Node>)> = Vec::new();
        while k < n
            invariant
                k <= n,
                n == fns@.len(),
                sv == self.node_store@,
                self.node_store.wf(),
                fns@.len() == sv.names.len(),
                forall|j: int|
                    0 <= j < fns@.len() ==> ((#[trigger] fns@[j].0)@, fns@[j].1) == sv.names[j],
                out@.len() == k,
                forall|i: int|
                    0 <= i < k ==> ((#[trigger] out@[i].0)@.name == sv.names[i].0
                        && out@[i].0@.hash == sv.names[i].1),
                forall|i: int|
                    0 <= i < k ==> #[trigger] solved_deps(
                        sv,
                        out@[i].0@,
                        nodes_view(out@[i].1@),
                    ),
            decreases n - k,
        {
            let node = Node { hash: fns[k].1, name: fns[k].0.clone() };
            proof {
                assert(node@.name == sv.names[k as int].0);
                assert(node@.hash == sv.names[k as int].1);
            }
            let deps = match self.solve_node(&node) {
                Err(e) => {
                    return Err(e);
                },
                Ok(ds) => ds,
            };
            out.push((node, deps));
            k = k + 1;
        }
        self.graph = out;
        Ok(())
    }
}

} // verus!
