//! Symbol environments.
//!
//! A symbol binds a name to an IR value: either directly (function handles,
//! globals, immediate constants, parameters, `let` bindings — reads yield the
//! value itself), or through a stack slot (`var` bindings — reads require a
//! load, writes a store).  The compiler keeps two environments, module-global
//! and function-local; lookup consults the local one first.
//!
//! An environment is an association list read from the most recent binding
//! backwards, so a later binding of the same name shadows an earlier one; its
//! view is the finite map this induces.

use crate::diag::CompileError;
use crate::ir::{IrType, Ty, TyV, Val};
use crate::token::{str_eq, Span};
use vstd::prelude::*;

verus! {

/// What a name stands for.
#[derive(Debug)]
pub enum Binding {
    /// The stored value is the SSA value itself; reads are identity.
    Direct { ty: Ty, val: Val },
    /// The stored value is the address of a stack slot holding a value of
    /// type `ty`; reads load, writes store.
    Slot { ty: IrType, addr: Val },
}

/// Mathematical view of a binding.
#[verifier::ext_equal]
pub enum BindingV {
    Direct { ty: TyV, val: Val },
    Slot { ty: IrType, addr: Val },
}

impl View for Binding {
    type V = BindingV;

    open spec fn view(&self) -> BindingV {
        match self {
            Binding::Direct { ty, val } => BindingV::Direct { ty: ty@, val: *val },
            Binding::Slot { ty, addr } => BindingV::Slot { ty: *ty, addr: *addr },
        }
    }
}

impl Binding {
    /// A structurally equal copy.
    pub fn dup(&self) -> (r: Binding)
        ensures
            r@ == self@,
    {
        match self {
            Binding::Direct { ty, val } => Binding::Direct { ty: ty.dup(), val: *val },
            Binding::Slot { ty, addr } => Binding::Slot { ty: *ty, addr: *addr },
        }
    }
}

/// The map induced by an association list: later entries win.
pub open spec fn map_of(s: Seq<(Seq<char>, BindingV)>) -> Map<Seq<char>, BindingV>
    decreases s.len(),
{
    if s.len() == 0 {
        Map::empty()
    } else {
        map_of(s.drop_last()).insert(s.last().0, s.last().1)
    }
}

/// One level of the symbol environment.
#[derive(Debug)]
pub struct Env {
    pub entries: Vec<(String, Binding)>,
}

impl Env {
    /// The bindings in insertion order.
    pub open spec fn list_view(self) -> Seq<(Seq<char>, BindingV)> {
        self.entries@.map_values(|p: (String, Binding)| (p.0@, p.1@))
    }
}

impl View for Env {
    type V = Map<Seq<char>, BindingV>;

    open spec fn view(&self) -> Map<Seq<char>, BindingV> {
        map_of(self.list_view())
    }
}

/// Nothing at or after position `j` binds `k`, so the map up to `j` already
/// settles `k`.
proof fn lemma_map_of_skip_suffix(s: Seq<(Seq<char>, BindingV)>, k: Seq<char>, j: int)
    requires
        0 <= j <= s.len(),
        forall|jj: int| j <= jj < s.len() ==> (#[trigger] s[jj]).0 != k,
    ensures
        map_of(s).contains_key(k) <==> map_of(s.take(j)).contains_key(k),
        map_of(s).contains_key(k) ==> map_of(s)[k] == map_of(s.take(j))[k],
    decreases s.len(),
{
    if j == s.len() {
        assert(s.take(j) =~= s);
    } else {
        assert(s.last().0 != k);
        assert(s.drop_last().take(j) =~= s.take(j));
        lemma_map_of_skip_suffix(s.drop_last(), k, j);
    }
}

impl Env {
    pub fn new() -> (r: Env)
        ensures
            r@ == Map::<Seq<char>, BindingV>::empty(),
            r.list_view() =~= Seq::<(Seq<char>, BindingV)>::empty(),
    {
        let r = Env { entries: Vec::new() };
        proof {
            assert(r.list_view() =~= Seq::<(Seq<char>, BindingV)>::empty());
        }
        r
    }

    /// Bind `name`, shadowing any earlier binding of the same name.
    pub fn insert(&mut self, name: String, b: Binding)
        ensures
            final(self)@ == old(self)@.insert(name@, b@),
            final(self).list_view() =~= old(self).list_view().push((name@, b@)),
    {
        let ghost pre = *self;
        self.entries.push((name, b));
        proof {
            assert(self.list_view() =~= pre.list_view().push((name@, b@)));
            assert(self.list_view().drop_last() =~= pre.list_view());
            assert(self@ =~= pre@.insert(name@, b@));
        }
    }

    /// Look `name` up; the most recent binding wins.
    pub fn lookup(&self, name: &str) -> (r: Option<Binding>)
        ensures
            r is Some <==> self@.contains_key(name@),
            r is Some ==> r->0@ == self@[name@],
    {
        let ghost lv = self.list_view();
        let mut j = self.entries.len();
        while j > 0
            invariant
                j <= self.entries@.len(),
                lv == self.list_view(),
                forall|jj: int| j <= jj < lv.len() ==> (#[trigger] lv[jj]).0 != name@,
            decreases j,
        {
            j = j - 1;
            if str_eq(self.entries[j].0.as_str(), name) {
                proof {
                    lemma_map_of_skip_suffix(lv, name@, j + 1);
                    assert(lv.take(j + 1).drop_last() =~= lv.take(j as int));
                    assert(lv.take(j + 1).last() == lv[j as int]);
                    assert(map_of(lv.take(j + 1)).contains_key(name@));
                    assert(map_of(lv.take(j + 1))[name@] == lv[j as int].1);
                }
                return Some(self.entries[j].1.dup());
            }
        }
        proof {
            lemma_map_of_skip_suffix(lv, name@, 0);
            assert(lv.take(0) =~= Seq::<(Seq<char>, BindingV)>::empty());
            assert(!map_of(lv.take(0)).contains_key(name@));
        }
        None
    }

    /// A copy with the same bindings: branch bodies compile under a snapshot
    /// so bindings they introduce do not escape.
    pub fn snapshot(&self) -> (r: Env)
        ensures
            r@ == self@,
            r.list_view() =~= self.list_view(),
    {
        let mut entries: Vec<(String, Binding)> = Vec::new();
        let mut i: usize = 0;
        while i < self.entries.len()
            invariant
                i <= self.entries@.len(),
                entries@.len() == i,
                forall|jj: int|
                    0 <= jj < i ==> (#[trigger] entries@[jj]).0@ == self.entries@[jj].0@
                        && entries@[jj].1@ == self.entries@[jj].1@,
            decreases self.entries@.len() - i,
        {
            let name = self.entries[i].0.clone();
            let b = self.entries[i].1.dup();
            entries.push((name, b));
            i = i + 1;
        }
        let r = Env { entries };
        proof {
            assert(r.list_view() =~= self.list_view());
        }
        r
    }
}

/// Resolve a name: the function-local environment first, the module-global
/// one second; a name in neither is an `UndefinedVariable` error at `loc`.
pub fn get_var(name: &str, loc: Span, varmap: &Env, local_varmap: &Env) -> (r: Result<
    Binding,
    CompileError,
>)
    ensures
        r is Ok <==> (local_varmap@.contains_key(name@) || varmap@.contains_key(name@)),
        local_varmap@.contains_key(name@) ==> r is Ok && r->Ok_0@ == local_varmap@[name@],
        !local_varmap@.contains_key(name@) && varmap@.contains_key(name@) ==> r is Ok
            && r->Ok_0@ == varmap@[name@],
        r is Err ==> (r->Err_0 matches CompileError::UndefinedVariable { name: n, span } && n@
            == name@ && span == loc),
{
    match local_varmap.lookup(name) {
        Some(b) => Ok(b),
        None => match varmap.lookup(name) {
            Some(b) => Ok(b),
            None => Err(CompileError::UndefinedVariable { name: String::from_str(name), span: loc }),
        },
    }
}

} // verus!
