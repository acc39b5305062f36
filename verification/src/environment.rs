use vstd::prelude::*;
use crate::interpreter::runtime_message;
use crate::interpreter::RuntimeError;
use crate::tokens::Literal;
use crate::tokens::LiteralV;
use crate::tokens::Token;

verus! {

/// A name with the value bound to it, if it has one yet.
pub struct Binding {
    pub name: String,
    pub value: Option<Literal>,
}

/// What a variable holds, as the contracts see it: `None` while it has no value.
pub open spec fn held(value: Option<Literal>) -> Option<LiteralV> {
    match value {
        Some(v) => Some(v@),
        None => None,
    }
}

/// One scope: the variables declared in it.
pub struct Environment {
    values: Vec<Binding>,
}

/// A scope on the stack of scopes, with the place of the scope around it.
pub struct Scope {
    pub env: Environment,
    pub outer: usize,
}

/// A scope as the contracts see it.
pub struct ScopeV {
    pub vars: Map<Seq<char>, Option<LiteralV>>,
    pub outer: usize,
}

impl Environment {
    /// Whether `i` is the place of the binding of `name`.
    pub closed spec fn binds(&self, i: int, name: Seq<char>) -> bool {
        0 <= i < self.values@.len() && self.values@[i].name@ == name
    }

    /// The variables of the scope with what they hold.
    pub closed spec fn view(&self) -> Map<Seq<char>, Option<LiteralV>> {
        Map::new(
            |name: Seq<char>| exists|i: int| self.binds(i, name),
            |name: Seq<char>| held(self.values@[choose|i: int| self.binds(i, name)].value),
        )
    }

    /// No name is bound twice.
    pub closed spec fn wf(&self) -> bool {
        forall|i: int, j: int|
            0 <= i < j < self.values@.len() ==> self.values@[i].name@ != self.values@[j].name@
    }

    pub fn new() -> (e: Environment)
        ensures
            e.wf(),
            e@ == Map::<Seq<char>, Option<LiteralV>>::empty(),
    {
        let e = Environment { values: Vec::new() };
        assert(e@ =~= Map::<Seq<char>, Option<LiteralV>>::empty());
        e
    }

    /// The place of the binding of `name`, if it has one.
    fn find(&self, name: &String) -> (r: Option<usize>)
        requires
            self.wf(),
        ensures
            match r {
                Some(i) => self.binds(i as int, name@) && self@.dom().contains(name@) && self@[name@]
                    == held(self.values@[i as int].value),
                None => !self@.dom().contains(name@),
            },
    {
        let mut i: usize = 0;
        while i < self.values.len()
            invariant
                i <= self.values.len(),
                self.wf(),
                forall|j: int| 0 <= j < i ==> !self.binds(j, name@),
            decreases self.values.len() - i,
        {
            if self.values[i].name == *name {
                assert(self.binds(i as int, name@));
                let ghost c = choose|k: int| self.binds(k, name@);
                assert(c == i);
                return Some(i);
            }
            i += 1;
        }
        None
    }

    /// Binds `name` to `value`, in place of what it was bound to before.
    pub fn define(&mut self, name: String, value: Option<Literal>)
        requires
            old(self).wf(),
        ensures
            final(self).wf(),
            final(self)@ == old(self)@.insert(name@, held(value)),
    {
        let ghost w: int;
        let ghost bound = name@;
        match self.find(&name) {
            Some(i) => {
                assert(old(self).binds(i as int, bound));
                self.values[i] = Binding { name, value };
                proof {
                    w = i as int;
                    assert(forall|j: int|
                        0 <= j < self.values@.len() ==> #[trigger] self.values@[j].name@ == old(
                            self,
                        ).values@[j].name@);
                    assert(forall|j: int, k: Seq<char>|
                        (#[trigger] self.binds(j, k)) == old(self).binds(j, k));
                    assert(forall|j: int|
                        j != w ==> !(#[trigger] self.binds(j, bound)));
                }
            },
            None => {
                assert(forall|j: int| !old(self).binds(j, bound)) by {
                    if exists|j: int| old(self).binds(j, bound) {
                        assert(old(self)@.dom().contains(bound));
                    }
                }
                self.values.push(Binding { name, value });
                proof {
                    w = self.values@.len() - 1;
                    assert(forall|j: int|
                        0 <= j < w ==> #[trigger] self.values@[j] == old(self).values@[j]);
                    assert(forall|j: int, k: Seq<char>|
                        j != w ==> (#[trigger] self.binds(j, k)) == old(self).binds(j, k));
                    assert(forall|j: int|
                        j != w ==> !(#[trigger] self.binds(j, bound)));
                }
            },
        }
        proof {
            let before = *old(self);
            let after = *self;
            assert(after.binds(w, bound));
            assert(forall|j: int, k: Seq<char>|
                j != w ==> (#[trigger] after.binds(j, k)) == before.binds(j, k));
            assert(forall|j: int|
                j != w && 0 <= j < after.values@.len() ==> #[trigger] after.values@[j].value
                    == before.values@[j].value);
            assert(after.wf()) by {
                assert forall|i: int, j: int| 0 <= i < j < after.values@.len() implies after.values@[i].name@
                    != after.values@[j].name@ by {
                    if after.values@[i].name@ == after.values@[j].name@ {
                        let k = after.values@[i].name@;
                        assert(after.binds(i, k));
                        assert(after.binds(j, k));
                        if i != w && j != w {
                            assert(before.binds(i, k));
                            assert(before.binds(j, k));
                        }
                    }
                }
            }
            assert forall|k: Seq<char>|
                after@.dom().contains(k) == before@.insert(name@, held(value)).dom().contains(
                    k,
                ) by {
                if after@.dom().contains(k) {
                    let i = choose|i: int| after.binds(i, k);
                    if k != name@ {
                        assert(before.binds(i, k));
                    }
                }
                if before@.dom().contains(k) && k != name@ {
                    let i = choose|i: int| before.binds(i, k);
                    assert(after.binds(i, k));
                }
            }
            assert forall|k: Seq<char>| after@.dom().contains(k) implies after@[k]
                == before@.insert(name@, held(value))[k] by {
                let i = choose|i: int| after.binds(i, k);
                if k != name@ {
                    assert(before.binds(i, k));
                    let j = choose|j: int| before.binds(j, k);
                    assert(i == j);
                } else {
                    assert(i == w);
                }
            }
            assert(after@ =~= before@.insert(name@, held(value)));
        }
    }

    /// What `tk` names in this scope.
    pub fn get(&self, tk: &Token) -> (r: Result<Option<Literal>, RuntimeError>)
        requires
            self.wf(),
        ensures
            match r {
                Ok(v) => self@.dom().contains(tk.lexeme@) && held(v) == self@[tk.lexeme@],
                Err(e) => !self@.dom().contains(tk.lexeme@) && e is InterpreterError && e@
                    == runtime_message("Undefined variable"@, tk.lexeme@, tk.line as nat),
            },
    {
        match self.find(&tk.lexeme) {
            Some(i) => {
                let v = match &self.values[i].value {
                    Some(l) => Some(l.clone()),
                    None => None,
                };
                Ok(v)
            },
            None => Err(RuntimeError::at(tk, "Undefined variable")),
        }
    }

    /// Gives the variable that `name` names in this scope the value `value`.
    pub fn assign(&mut self, name: &Token, value: Literal) -> (r: Result<(), RuntimeError>)
        requires
            old(self).wf(),
        ensures
            final(self).wf(),
            match r {
                Ok(_) => old(self)@.dom().contains(name.lexeme@) && final(self)@ == old(
                    self,
                )@.insert(name.lexeme@, Some(value@)),
                Err(e) => !old(self)@.dom().contains(name.lexeme@) && final(self)@ == old(self)@
                    && e is InterpreterError && e@ == runtime_message(
                    " Undefined variable"@,
                    name.lexeme@,
                    name.line as nat,
                ),
            },
    {
        match self.find(&name.lexeme) {
            None => Err(RuntimeError::at(name, " Undefined variable")),
            Some(_) => {
                self.define(name.lexeme.clone(), Some(value));
                Ok(())
            },
        }
    }

    /// Whether `tk` names a variable of this scope.
    pub fn has(&self, tk: &Token) -> (r: bool)
        requires
            self.wf(),
        ensures
            r == self@.dom().contains(tk.lexeme@),
    {
        self.find(&tk.lexeme).is_some()
    }
}

/// The place of the innermost scope, from the scope at `at` outwards, that
/// declares `name`.
pub open spec fn resolve(scopes: Seq<ScopeV>, at: int, name: Seq<char>) -> Option<int>
    decreases at,
{
    if at < 0 || at >= scopes.len() {
        None
    } else if scopes[at].vars.dom().contains(name) {
        Some(at)
    } else if scopes[at].outer < at {
        resolve(scopes, scopes[at].outer as int, name)
    } else {
        None
    }
}

/// The scope that declares a name is one of the scopes from `at` outwards,
/// and it does declare the name.
pub proof fn lemma_resolve_within(scopes: Seq<ScopeV>, at: int, name: Seq<char>)
    ensures
        match resolve(scopes, at, name) {
            Some(i) => 0 <= i <= at && i < scopes.len() && scopes[i].vars.dom().contains(name),
            None => true,
        },
    decreases at,
{
    if 0 <= at < scopes.len() && !scopes[at].vars.dom().contains(name) && scopes[at].outer < at {
        lemma_resolve_within(scopes, scopes[at].outer as int, name);
    }
}

/// The scopes with `value` given to the variable `name` of the scope at `at`.
pub open spec fn bind(scopes: Seq<ScopeV>, at: int, name: Seq<char>, value: Option<LiteralV>)
    -> Seq<ScopeV> {
    scopes.update(at, ScopeV { vars: scopes[at].vars.insert(name, value), ..scopes[at] })
}

/// The chain of scopes of a running program: the global scope first, the
/// current scope last.
pub struct Stack {
    envs: Vec<Scope>,
}

impl Stack {
    /// The scopes, the global scope first.
    pub closed spec fn view(&self) -> Seq<ScopeV> {
        Seq::new(
            self.envs@.len(),
            |i: int| ScopeV { vars: self.envs@[i].env@, outer: self.envs@[i].outer },
        )
    }

    /// There is a global scope, and the scope around each other one lies
    /// below it.
    pub closed spec fn wf(&self) -> bool {
        &&& self.envs@.len() > 0
        &&& forall|i: int| 0 <= i < self.envs@.len() ==> (#[trigger] self.envs@[i]).env.wf()
        &&& forall|i: int| 0 < i < self.envs@.len() ==> (#[trigger] self.envs@[i]).outer < i
    }

    pub fn new() -> (s: Stack)
        ensures
            s.wf(),
            s@ == seq![ScopeV { vars: Map::<Seq<char>, Option<LiteralV>>::empty(), outer: 0 }],
    {
        let mut envs: Vec<Scope> = Vec::new();
        envs.push(Scope { env: Environment::new(), outer: 0 });
        let s = Stack { envs };
        assert(s@ =~= seq![
            ScopeV { vars: Map::<Seq<char>, Option<LiteralV>>::empty(), outer: 0 },
        ]);
        s
    }

    /// The global scope is always there.
    pub proof fn lemma_has_global(&self)
        requires
            self.wf(),
        ensures
            self@.len() > 0,
    {
    }

    /// The number of scopes.
    pub fn depth(&self) -> (n: usize)
        requires
            self.wf(),
        ensures
            n == self@.len(),
            n > 0,
    {
        self.envs.len()
    }

    /// Enters a scope inside the scope at `outer`.
    pub fn push_inside(&mut self, outer: usize)
        requires
            old(self).wf(),
            outer < old(self)@.len(),
        ensures
            final(self).wf(),
            final(self)@ == old(self)@.push(
                ScopeV { vars: Map::<Seq<char>, Option<LiteralV>>::empty(), outer },
            ),
    {
        self.envs.push(Scope { env: Environment::new(), outer });
        assert(self@ =~= old(self)@.push(
            ScopeV { vars: Map::<Seq<char>, Option<LiteralV>>::empty(), outer },
        ));
    }

    /// Enters a scope inside the current one.
    pub fn push_new(&mut self)
        requires
            old(self).wf(),
        ensures
            final(self).wf(),
            final(self)@ == old(self)@.push(
                ScopeV {
                    vars: Map::<Seq<char>, Option<LiteralV>>::empty(),
                    outer: (old(self)@.len() - 1) as usize,
                },
            ),
    {
        let outer = self.envs.len() - 1;
        self.push_inside(outer);
    }

    /// Leaves the current scope for the one that was current before it.
    pub fn restore_old(&mut self)
        requires
            old(self).wf(),
            old(self)@.len() > 1,
        ensures
            final(self).wf(),
            final(self)@ == old(self)@.drop_last(),
    {
        self.envs.pop();
        assert(self@ =~= old(self)@.drop_last());
    }

    /// Leaves every scope but the global one.
    pub fn reset(&mut self)
        requires
            old(self).wf(),
        ensures
            final(self).wf(),
            final(self)@ == old(self)@.take(1),
    {
        self.envs.truncate(1);
        assert(self@ =~= old(self)@.take(1));
    }

    /// Declares `name` in the current scope, with `value` if it has one.
    pub fn define(&mut self, name: String, value: Option<Literal>)
        requires
            old(self).wf(),
        ensures
            final(self).wf(),
            final(self)@ == bind(old(self)@, old(self)@.len() - 1, name@, held(value)),
    {
        let last = self.envs.len() - 1;
        self.envs[last].env.define(name, value);
        assert(self@ =~= bind(old(self)@, old(self)@.len() - 1, name@, held(value)));
    }

    /// The place of the innermost scope that declares what `tk` names.
    fn find(&self, tk: &Token) -> (r: Option<usize>)
        requires
            self.wf(),
        ensures
            match r {
                Some(i) => resolve(self@, self@.len() - 1, tk.lexeme@) == Some(i as int) && i
                    < self@.len() && self@[i as int].vars.dom().contains(tk.lexeme@),
                None => resolve(self@, self@.len() - 1, tk.lexeme@) is None,
            },
    {
        let mut at = self.envs.len() - 1;
        loop
            invariant
                self.wf(),
                at < self.envs@.len(),
                resolve(self@, at as int, tk.lexeme@) == resolve(
                    self@,
                    self@.len() - 1,
                    tk.lexeme@,
                ),
            decreases at,
        {
            if self.envs[at].env.has(tk) {
                return Some(at);
            }
            if at == 0 {
                return None;
            }
            at = self.envs[at].outer;
        }
    }

    /// Gives the variable that `name` names, in the innermost scope that
    /// declares it, the value `value`.
    pub fn assign(&mut self, name: &Token, value: Literal) -> (r: Result<(), RuntimeError>)
        requires
            old(self).wf(),
        ensures
            final(self).wf(),
            match resolve(old(self)@, old(self)@.len() - 1, name.lexeme@) {
                Some(i) => r is Ok && final(self)@ == bind(
                    old(self)@,
                    i,
                    name.lexeme@,
                    Some(value@),
                ),
                None => final(self)@ == old(self)@ && r is Err && r->Err_0 is InterpreterError
                    && r->Err_0@ == runtime_message(
                    " Undefined variable"@,
                    name.lexeme@,
                    name.line as nat,
                ),
            },
    {
        match self.find(name) {
            Some(i) => {
                let _ = self.envs[i].env.assign(name, value);
                assert(self@ =~= bind(old(self)@, i as int, name.lexeme@, Some(value@)));
                Ok(())
            },
            None => Err(RuntimeError::at(name, " Undefined variable")),
        }
    }

    /// What the variable that `tk` names holds, in the innermost scope that
    /// declares it.
    fn get_helper(&self, tk: &Token) -> (r: Result<Option<Literal>, RuntimeError>)
        requires
            self.wf(),
        ensures
            match resolve(self@, self@.len() - 1, tk.lexeme@) {
                Some(i) => r is Ok && held(r->Ok_0) == self@[i].vars[tk.lexeme@],
                None => r is Err && r->Err_0 is InterpreterError && r->Err_0@ == runtime_message(
                    "Undefined variable"@,
                    tk.lexeme@,
                    tk.line as nat,
                ),
            },
    {
        match self.find(tk) {
            Some(i) => self.envs[i].env.get(tk),
            None => Err(RuntimeError::at(tk, "Undefined variable")),
        }
    }

    /// The value of the variable that `tk` names.
    pub fn get(&self, tk: &Token) -> (r: Result<Literal, RuntimeError>)
        requires
            self.wf(),
        ensures
            r == Ok::<Literal, RuntimeError>(r->Ok_0) || r == Err::<Literal, RuntimeError>(
                r->Err_0,
            ),
            lookup(self@, tk.lexeme@, tk.line as nat) == (match r {
                Ok(v) => Ok::<LiteralV, Seq<char>>(v@),
                Err(e) => Err(e@),
            }),
            r is Err ==> r->Err_0 is InterpreterError,
    {
        match self.get_helper(tk) {
            Ok(Some(lt)) => Ok(lt),
            Ok(None) => Err(RuntimeError::at(tk, "Uninitialized variable")),
            Err(e) => Err(e),
        }
    }
}

/// What reading the variable `name` gives: its value, or the text of the
/// error for a variable that has no value yet or was never declared.
pub open spec fn lookup(scopes: Seq<ScopeV>, name: Seq<char>, line: nat) -> Result<
    LiteralV,
    Seq<char>,
> {
    match resolve(scopes, scopes.len() - 1, name) {
        Some(i) => match scopes[i].vars[name] {
            Some(v) => Ok(v),
            None => Err(runtime_message("Uninitialized variable"@, name, line)),
        },
        None => Err(runtime_message("Undefined variable"@, name, line)),
    }
}

/// A variable declared with a value in the current scope reads as that
/// value, whatever the scopes around declare under its name.
pub proof fn lemma_define_then_get(scopes: Seq<ScopeV>, name: Seq<char>, v: LiteralV, line: nat)
    requires
        scopes.len() > 0,
    ensures
        lookup(bind(scopes, scopes.len() - 1, name, Some(v)), name, line) == Ok::<
            LiteralV,
            Seq<char>,
        >(v),
{
}

/// A variable declared without a value in the current scope cannot be read,
/// whatever the scopes around declare under its name.
pub proof fn lemma_declare_then_get(scopes: Seq<ScopeV>, name: Seq<char>, line: nat)
    requires
        scopes.len() > 0,
    ensures
        lookup(bind(scopes, scopes.len() - 1, name, None), name, line) == Err::<
            LiteralV,
            Seq<char>,
        >(runtime_message("Uninitialized variable"@, name, line)),
{
}

/// A declaration in an inner scope is gone when the scope is left: a name
/// then reads as it did before the scope was entered.
pub proof fn lemma_shadow_ends(
    scopes: Seq<ScopeV>,
    name: Seq<char>,
    v: Option<LiteralV>,
    line: nat,
)
    requires
        scopes.len() > 0,
    ensures
        lookup(
            bind(
                scopes.push(ScopeV { vars: Map::empty(), outer: (scopes.len() - 1) as usize }),
                scopes.len() as int,
                name,
                v,
            ).drop_last(),
            name,
            line,
        ) == lookup(scopes, name, line),
{
    let inner = scopes.push(ScopeV { vars: Map::empty(), outer: (scopes.len() - 1) as usize });
    assert(bind(inner, scopes.len() as int, name, v).drop_last() =~= scopes);
}

/// An assignment to a declared variable is read back from where the
/// variable is declared.
pub proof fn lemma_assign_then_get(scopes: Seq<ScopeV>, name: Seq<char>, v: LiteralV, line: nat)
    requires
        resolve(scopes, scopes.len() - 1, name) is Some,
    ensures
        lookup(
            bind(scopes, resolve(scopes, scopes.len() - 1, name)->0, name, Some(v)),
            name,
            line,
        ) == Ok::<LiteralV, Seq<char>>(v),
{
    let at = resolve(scopes, scopes.len() - 1, name)->0;
    lemma_resolve_within(scopes, scopes.len() - 1, name);
    lemma_resolve_after_bind(scopes, scopes.len() - 1, at, name, Some(v));
}

/// Giving a variable a value where it is declared does not change where
/// its name is resolved.
pub proof fn lemma_resolve_after_bind(
    scopes: Seq<ScopeV>,
    from: int,
    at: int,
    name: Seq<char>,
    v: Option<LiteralV>,
)
    requires
        0 <= at < scopes.len(),
        scopes[at].vars.dom().contains(name),
    ensures
        resolve(bind(scopes, at, name, v), from, name) == resolve(scopes, from, name),
    decreases from,
{
    if 0 <= from < scopes.len() && !scopes[from].vars.dom().contains(name) && scopes[from].outer
        < from {
        lemma_resolve_after_bind(scopes, scopes[from].outer as int, at, name, v);
    }
}

} // verus!
