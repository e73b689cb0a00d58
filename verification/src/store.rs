//! The content-addressed code store: a hash-to-object map with a
//! name-to-hash side table and a distinguished entry point.

use vstd::prelude::*;
use crate::{CodeHash, valid_name};
use crate::object::{obj_hash, CodeObject, CodeObjV};
use crate::text::str_eq;

verus! {

/// Why a store operation failed.
#[derive(Debug, Clone, Copy, PartialEq, Eq, Structural)]
pub enum StoreError {
    /// The name breaks the identifier syntax.
    InvalidName,
    /// The name is already bound.
    DuplicateName,
    /// No object carries the given hash.
    MissingHash,
    /// No `main` binding exists.
    MissingMain,
    /// No binding carries the given name.
    UnknownName,
}

/// The mathematical shape of the store: the objects and the bindings in
/// insertion order, and the entry-point hash if one was inserted.
pub struct StoreV {
    pub objects: Seq<(u128, CodeObjV)>,
    pub names: Seq<(Seq<char>, u128)>,
    pub main: Option<u128>,
}

/// True when some stored object carries hash `h`.
pub open spec fn has_obj(s: StoreV, h: u128) -> bool {
    exists|i: int| 0 <= i < s.objects.len() && (#[trigger] s.objects[i]).0 == h
}

/// True when some binding carries name `n`.
pub open spec fn has_name(s: StoreV, n: Seq<char>) -> bool {
    exists|i: int| 0 <= i < s.names.len() && (#[trigger] s.names[i]).0 == n
}

/// The state and result of inserting an object under a name: the name
/// must be valid and unbound; the object is stored only if its hash is
/// new; binding `main` fixes the entry point.
pub open spec fn insert_model(s: StoreV, name: Seq<char>, o: CodeObjV) -> (StoreV, Result<
    u128,
    StoreError,
>) {
    if !valid_name(name) {
        (s, Err(StoreError::InvalidName))
    } else if has_name(s, name) {
        (s, Err(StoreError::DuplicateName))
    } else {
        let h = obj_hash(o);
        (
            StoreV {
                objects: if has_obj(s, h) {
                    s.objects
                } else {
                    s.objects.push((h, o))
                },
                names: s.names.push((name, h)),
                main: if name == "main"@ {
                    Some(h)
                } else {
                    s.main
                },
            },
            Ok(h),
        )
    }
}

/// The state and result of binding one more name to a stored hash.
pub open spec fn alias_model(s: StoreV, name: Seq<char>, h: u128) -> (StoreV, Result<
    (),
    StoreError,
>) {
    if !valid_name(name) {
        (s, Err(StoreError::InvalidName))
    } else if has_name(s, name) {
        (s, Err(StoreError::DuplicateName))
    } else if !has_obj(s, h) {
        (s, Err(StoreError::MissingHash))
    } else {
        (StoreV { objects: s.objects, names: s.names.push((name, h)), main: s.main }, Ok(()))
    }
}

/// Any hash stored in `s` is still stored in a store whose object list
/// extends `s`'s.
proof fn lemma_has_obj_mono(s: StoreV, s2: StoreV)
    requires
        s.objects.len() <= s2.objects.len(),
        forall|i: int| 0 <= i < s.objects.len() ==> #[trigger] s2.objects[i] == s.objects[i],
    ensures
        forall|h: u128| #[trigger] has_obj(s, h) ==> has_obj(s2, h),
{
    assert forall|h: u128| #[trigger] has_obj(s, h) implies has_obj(s2, h) by {
        let i = choose|i: int| 0 <= i < s.objects.len() && (#[trigger] s.objects[i]).0 == h;
        assert(s2.objects[i].0 == h);
    }
}

/// The content-addressed code store.
#[derive(Debug)]
pub struct Store {
    objects: Vec<(CodeHash, CodeObject)>,
    names: Vec<(String, CodeHash)>,
    main_hash: Option<CodeHash>,
}

impl View for Store {
    type V = StoreV;

    closed spec fn view(&self) -> StoreV {
        StoreV {
            objects: Seq::new(
                self.objects@.len(),
                |i: int|
                    if 0 <= i < self.objects@.len() {
                        (self.objects@[i].0, self.objects@[i].1@)
                    } else {
                        (0u128, self.objects@[0].1@)
                    },
            ),
            names: Seq::new(
                self.names@.len(),
                |i: int|
                    if 0 <= i < self.names@.len() {
                        (self.names@[i].0@, self.names@[i].1)
                    } else {
                        (Seq::empty(), 0u128)
                    },
            ),
            main: self.main_hash,
        }
    }
}

impl Store {
    /// Internal coherence: every named hash addresses a stored object,
    /// and so does the entry point; hashes and names never repeat.
    pub open spec fn wf(&self) -> bool {
        &&& forall|i: int, j: int|
            0 <= i < j < self@.objects.len() ==> (#[trigger] self@.objects[i]).0 != (
            #[trigger] self@.objects[j]).0
        &&& forall|i: int, j: int|
            0 <= i < j < self@.names.len() ==> (#[trigger] self@.names[i]).0 != (
            #[trigger] self@.names[j]).0
        &&& forall|i: int|
            0 <= i < self@.names.len() ==> has_obj(self@, (#[trigger] self@.names[i]).1)
        &&& match self@.main {
            Some(h) => has_obj(self@, h),
            None => true,
        }
    }

    /// An empty in-memory store.
    pub fn new() -> (r: Store)
        ensures
            r.wf(),
            r@.objects == Seq::<(u128, CodeObjV)>::empty(),
            r@.names == Seq::<(Seq<char>, u128)>::empty(),
            r@.main is None,
    {
        let r = Store { objects: Vec::new(), names: Vec::new(), main_hash: None };
        proof {
            assert(r@.objects =~= Seq::<(u128, CodeObjV)>::empty());
            assert(r@.names =~= Seq::<(Seq<char>, u128)>::empty());
        }
        r
    }

    /// Looks up the position of a hash, if stored.
    fn find_hash(&self, hash: CodeHash) -> (r: Option<usize>)
        ensures
            match r {
                Some(i) => i < self@.objects.len() && self@.objects[i as int].0 == hash,
                None => !has_obj(self@, hash),
            },
    {
        let mut k: usize = 0;
        while k < self.objects.len()
            invariant
                k <= self.objects@.len(),
                self@.objects.len() == self.objects@.len(),
                forall|i: int| 0 <= i < k ==> (#[trigger] self@.objects[i]).0 != hash,
            decreases self.objects@.len() - k,
        {
            if self.objects[k].0 == hash {
                return Some(k);
            }
            k = k + 1;
        }
        None
    }

    /// Looks up the position of a name, if bound.
    fn find_name(&self, name: &str) -> (r: Option<usize>)
        ensures
            match r {
                Some(i) => i < self@.names.len() && self@.names[i as int].0 == name@,
                None => !has_name(self@, name@),
            },
    {
        let mut k: usize = 0;
        while k < self.names.len()
            invariant
                k <= self.names@.len(),
                self@.names.len() == self.names@.len(),
                forall|i: int| 0 <= i < k ==> (#[trigger] self@.names[i]).0 != name@,
            decreases self.names@.len() - k,
        {
            if str_eq(self.names[k].0.as_str(), name) {
                return Some(k);
            }
            k = k + 1;
        }
        None
    }

    /// Computes the object's hash and stores object and binding:
    /// idempotent on an already-stored blob, and a `main` binding fixes
    /// the entry point. Fails on an invalid or already-bound name.
    pub fn insert_code_object_with_name(&mut self, code_obj: &CodeObject, name: &str) -> (r:
        Result<CodeHash, StoreError>)
        requires
            old(self).wf(),
        ensures
            final(self).wf(),
            (final(self)@, r) == insert_model(old(self)@, name@, code_obj@),
    {
        if !crate::is_valid_name(name) {
            return Err(StoreError::InvalidName);
        }
        if let Some(_) = self.find_name(name) {
            proof {
                assert(has_name(self@, name@));
            }
            return Err(StoreError::DuplicateName);
        }
        let h = code_obj.hash();
        let ghost s0 = self@;
        match self.find_hash(h) {
            Some(_) => {
                proof {
                    assert(has_obj(s0, h));
                }
            },
            None => {
                self.objects.push((h, code_obj.clone()));
                proof {
                    assert(self@.objects =~= s0.objects.push((h, code_obj@)));
                    assert(self@.names =~= s0.names);
                }
            },
        }
        let ghost s1 = self@;
        proof {
            lemma_has_obj_mono(s0, s1);
            assert(has_obj(s1, h)) by {
                if has_obj(s0, h) {
                } else {
                    assert(s1.objects[s0.objects.len() as int].0 == h);
                }
            }
        }
        let is_main = str_eq(name, "main");
        self.names.push((name.to_owned(), h));
        if is_main {
            self.main_hash = Some(h);
        }
        proof {
            assert(self@.names =~= s1.names.push((name@, h)));
            assert(self@.objects =~= s1.objects);
            lemma_has_obj_mono(s1, self@);
            assert forall|i: int| 0 <= i < self@.names.len() implies has_obj(
                self@,
                (#[trigger] self@.names[i]).1,
            ) by {
                if i < s1.names.len() {
                    assert(self@.names[i] == s1.names[i]);
                    assert(s1.names[i] == s0.names[i]);
                    assert(has_obj(s0, s0.names[i].1));
                } else {
                    assert(self@.names[i] == (name@, h));
                    assert(has_obj(s1, h));
                }
            }
            assert(final(self).wf()) by {
                assert(forall|i: int, j: int|
                    0 <= i < j < self@.objects.len() ==> (#[trigger] self@.objects[i]).0 != (
                    #[trigger] self@.objects[j]).0);
                assert(forall|i: int, j: int|
                    0 <= i < j < self@.names.len() ==> (#[trigger] self@.names[i]).0 != (
                    #[trigger] self@.names[j]).0) by {
                    assert(forall|i: int|
                        0 <= i < s1.names.len() ==> (#[trigger] self@.names[i]) == s1.names[i]);
                    assert(self@.names[s1.names.len() as int].0 == name@);
                    assert(!has_name(s0, name@));
                    assert(forall|i: int|
                        0 <= i < s0.names.len() ==> (#[trigger] s0.names[i]).0 != name@);
                }
                match self@.main {
                    Some(m) => {
                        if is_main {
                            assert(m == h);
                        } else {
                            assert(self@.main == s0.main);
                            assert(has_obj(s0, m));
                        }
                        assert(has_obj(self@, m));
                    },
                    None => {},
                }
            }
            assert(self@.objects =~= insert_model(s0, name@, code_obj@).0.objects);
            assert(self@.names =~= insert_model(s0, name@, code_obj@).0.names);
            assert(self@.main == insert_model(s0, name@, code_obj@).0.main);
            assert(self@ == insert_model(s0, name@, code_obj@).0);
        }
        Ok(h)
    }

    /// Binds one more name to an already-stored hash.
    pub fn create_alias(&mut self, name: &str, hash: &CodeHash) -> (r: Result<(), StoreError>)
        requires
            old(self).wf(),
        ensures
            final(self).wf(),
            (final(self)@, r) == alias_model(old(self)@, name@, *hash),
    {
        if !crate::is_valid_name(name) {
            return Err(StoreError::InvalidName);
        }
        if let Some(_) = self.find_name(name) {
            proof {
                assert(has_name(self@, name@));
            }
            return Err(StoreError::DuplicateName);
        }
        match self.find_hash(*hash) {
            None => Err(StoreError::MissingHash),
            Some(_) => {
                proof {
                    assert(has_obj(self@, *hash));
                }
                let ghost s1 = self@;
                self.names.push((name.to_owned(), *hash));
                proof {
                    assert(self@.names =~= s1.names.push((name@, *hash)));
                    assert(self@.objects =~= s1.objects);
                    lemma_has_obj_mono(s1, self@);
                    assert forall|i: int| 0 <= i < self@.names.len() implies has_obj(
                        self@,
                        (#[trigger] self@.names[i]).1,
                    ) by {
                        if i < s1.names.len() {
                            assert(self@.names[i] == s1.names[i]);
                            assert(has_obj(s1, s1.names[i].1));
                        } else {
                            assert(self@.names[i] == (name@, *hash));
                            assert(has_obj(s1, *hash));
                        }
                    }
                    assert(forall|i: int|
                        0 <= i < s1.names.len() ==> (#[trigger] self@.names[i]) == s1.names[i]);
                    assert(forall|i: int|
                        0 <= i < s1.names.len() ==> (#[trigger] s1.names[i]).0 != name@);
                    match self@.main {
                        Some(m) => {
                            assert(has_obj(s1, m));
                            assert(has_obj(self@, m));
                        },
                        None => {},
                    }
                }
                Ok(())
            },
        }
    }

    /// Fetches the object stored under a hash.
    pub fn get_code_object(&self, hash: &CodeHash) -> (r: Result<CodeObject, StoreError>)
        requires
            self.wf(),
        ensures
            match r {
                Ok(o) => exists|i: int|
                    0 <= i < self@.objects.len() && #[trigger] self@.objects[i] == (*hash, o@),
                Err(e) => e == StoreError::MissingHash && !has_obj(self@, *hash),
            },
    {
        match self.find_hash(*hash) {
            None => Err(StoreError::MissingHash),
            Some(i) => {
                let o = self.objects[i].1.clone();
                proof {
                    assert(self@.objects[i as int] == (*hash, o@));
                }
                Ok(o)
            },
        }
    }

    /// Fetches the entry point: the object inserted under the name
    /// `main`, with its hash.
    pub fn get_main_object(&self) -> (r: Result<(CodeHash, CodeObject), StoreError>)
        requires
            self.wf(),
        ensures
            match r {
                Ok((h, o)) => self@.main == Some(h) && exists|i: int|
                    0 <= i < self@.objects.len() && #[trigger] self@.objects[i] == (h, o@),
                Err(e) => e == StoreError::MissingMain && self@.main is None,
            },
    {
        match self.main_hash {
            None => Err(StoreError::MissingMain),
            Some(h) => {
                match self.get_code_object(&h) {
                    Ok(o) => Ok((h, o)),
                    Err(_) => {
                        proof {
                            assert(has_obj(self@, h));
                            assert(false);
                        }
                        Err(StoreError::MissingMain)
                    },
                }
            },
        }
    }

    /// Resolves a name to its hash and object.
    pub fn get_code_object_by_name(&self, name: &str) -> (r: Result<
        (CodeHash, CodeObject),
        StoreError,
    >)
        requires
            self.wf(),
        ensures
            match r {
                Ok((h, o)) => {
                    &&& exists|i: int|
                        0 <= i < self@.names.len() && #[trigger] self@.names[i] == (name@, h)
                    &&& exists|i: int|
                        0 <= i < self@.objects.len() && #[trigger] self@.objects[i] == (h, o@)
                },
                Err(e) => e == StoreError::UnknownName && !has_name(self@, name@),
            },
    {
        match self.find_name(name) {
            None => Err(StoreError::UnknownName),
            Some(i) => {
                let h = self.names[i].1;
                proof {
                    assert(self@.names[i as int] == (name@, h));
                    assert(has_obj(self@, h));
                }
                match self.get_code_object(&h) {
                    Ok(o) => Ok((h, o)),
                    Err(_) => {
                        proof {
                            assert(false);
                        }
                        Err(StoreError::UnknownName)
                    },
                }
            },
        }
    }

    /// The first name bound to a hash, in insertion order, if any.
    pub fn get_name_of_hash(&self, hash: &CodeHash) -> (r: Option<String>)
        ensures
            match r {
                Some(s) => exists|i: int|
                    0 <= i < self@.names.len() && #[trigger] self@.names[i] == (s@, *hash)
                        && (forall|j: int| 0 <= j < i ==> (#[trigger] self@.names[j]).1 != *hash),
                None => forall|i: int|
                    0 <= i < self@.names.len() ==> (#[trigger] self@.names[i]).1 != *hash,
            },
    {
        let mut k: usize = 0;
        while k < self.names.len()
            invariant
                k <= self.names@.len(),
                self@.names.len() == self.names@.len(),
                forall|i: int| 0 <= i < k ==> (#[trigger] self@.names[i]).1 != *hash,
            decreases self.names@.len() - k,
        {
            if self.names[k].1 == *hash {
                let s = self.names[k].0.clone();
                proof {
                    assert(self@.names[k as int] == (s@, *hash));
                }
                return Some(s);
            }
            k = k + 1;
        }
        None
    }

    /// Every binding, in insertion order.
    pub fn get_functions(&self) -> (r: Vec<(String, CodeHash)>)
        ensures
            r@.len() == self@.names.len(),
            forall|i: int|
                0 <= i < r@.len() ==> (#[trigger] r@[i].0@, r@[i].1) == self@.names[i],
    {
        let mut out: Vec<(String, CodeHash)> = Vec::new();
        let mut k: usize = 0;
        while k < self.names.len()
            invariant
                k <= self.names@.len(),
                self@.names.len() == self.names@.len(),
                out@.len() == k,
                forall|i: int|
                    0 <= i < k ==> (#[trigger] out@[i].0@, out@[i].1) == self@.names[i],
            decreases self.names@.len() - k,
        {
            let s = self.names[k].0.clone();
            let h = self.names[k].1;
            proof {
                assert(self@.names[k as int] == (s@, h));
            }
            out.push((s, h));
            k = k + 1;
        }
        out
    }
}

/// Content addressing at the store's boundary: inserting the same object
/// again, under a fresh valid name, returns the very same hash and adds
/// no new blob.
pub proof fn lemma_insert_idempotent(s: StoreV, n1: Seq<char>, n2: Seq<char>, o: CodeObjV)
    requires
        insert_model(s, n1, o).1 is Ok,
        valid_name(n2),
        !has_name(insert_model(s, n1, o).0, n2),
    ensures
        insert_model(insert_model(s, n1, o).0, n2, o).1 == insert_model(s, n1, o).1,
        insert_model(insert_model(s, n1, o).0, n2, o).0.objects == insert_model(s, n1, o).0.objects,
{
    let s1 = insert_model(s, n1, o).0;
    let h = obj_hash(o);
    if !has_obj(s, h) {
        assert(s1.objects[s.objects.len() as int].0 == h);
    }
    assert(has_obj(s1, h)) by {
        if has_obj(s, h) {
            let i = choose|i: int| 0 <= i < s.objects.len() && (#[trigger] s.objects[i]).0 == h;
            assert(s1.objects[i].0 == h);
        }
    }
}

} // verus!
