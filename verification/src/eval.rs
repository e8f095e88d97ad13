//! The evaluator's state and the operations on it.

use crate::attr_set::ValueRef;
use crate::env::{Displ, Env, EnvInner, EnvRef, Level, StaticEnv};
use crate::err::{NixError, NixResult, ValueKind};
use crate::invariants::countable;
use crate::resolve_lemmas::frames_fit;
use crate::soundness::{
    env_sound, lemma_define_global_sound, setting_up, shape, sound, value_sound,
};
use crate::heap::{
    env_views, kind_of, string_views, value_views, EnvInnerView, EnvView, Heap, ValueView,
};
use crate::nix_expr::{Expr, ExprVar};
use crate::semantics;
use crate::symbol_table::{Symbol, SymbolTable};
use crate::value::{NixString, PrimOpApp, Thunk, Value};
use crate::primops::{PrimOp, RegisterPrimOp};
use vstd::prelude::*;

verus! {

/// Whether a lookup may evaluate the attribute set of a `with`.
#[derive(Clone, Copy, Debug, PartialEq, Eq, Structural)]
pub enum ShouldEval {
    Yes,
    No,
}

/// The state of one evaluator session: the symbol table, the value slots
/// and the environments. Slots and environments are only ever added.
pub struct EvalState<'a> {
    pub symbols: SymbolTable,
    pub values: Vec<Value<'a>>,
    pub envs: Vec<Env<'a>>,
}

impl<'a> View for EvalState<'a> {
    type V = Heap<'a>;

    open spec fn view(&self) -> Heap<'a> {
        Heap {
            symbols: self.symbols@,
            values: value_views(self.values@),
            envs: env_views(self.envs@),
        }
    }
}

/// Whether `v` can be bound as a global in the state `h`: the state is
/// sound and is being set up, and `v` refers to the state only and is no
/// deferred expression and no function.
pub open spec fn can_define(h: Heap, v: ValueView) -> bool {
    &&& sound(h)
    &&& setting_up(h)
    &&& value_sound(h, None, v)
    &&& !(v is Thunk)
    &&& !(v is Lambda)
}

/// Whether `scope` stands for the outermost frame of `h`: it is the one
/// frame of its chain, is no frame of a `with`, and each displacement that
/// it gives is that of a slot of the outermost frame.
pub open spec fn scope_fits(scope: StaticEnv, h: Heap) -> bool {
    &&& scope.up is None
    &&& !scope.is_with
    &&& frames_fit(scope.frames(), shape(h, 0, None))
}

/// A copy of a list of strings.
pub fn duplicate_strings(strings: &Vec<String>) -> (copy: Vec<String>)
    ensures
        string_views(copy@) == string_views(strings@),
{
    let mut copy: Vec<String> = Vec::new();
    let mut i: usize = 0;
    while i < strings.len()
        invariant
            i <= strings@.len(),
            copy@.len() == i,
            forall|j: int| 0 <= j < i ==> copy@[j]@ == strings@[j]@,
        decreases strings@.len() - i,
    {
        copy.push(strings[i].clone());
        i += 1;
    }
    assert(string_views(copy@) =~= string_views(strings@));
    copy
}

/// A copy of a list of slots.
pub fn duplicate_slots(slots: &Vec<ValueRef>) -> (copy: Vec<ValueRef>)
    ensures
        copy@ == slots@,
{
    let mut copy: Vec<ValueRef> = Vec::new();
    let mut i: usize = 0;
    while i < slots.len()
        invariant
            i <= slots@.len(),
            copy@ == slots@.take(i as int),
        decreases slots@.len() - i,
    {
        copy.push(slots[i]);
        assert(copy@ =~= slots@.take(i as int + 1));
        i += 1;
    }
    assert(slots@.take(slots@.len() as int) =~= slots@);
    copy
}

impl PrimOp {
    /// A copy of the built-in function.
    pub fn duplicate(&self) -> (copy: PrimOp)
        ensures
            copy@ == self@,
    {
        PrimOp { name: self.name.clone(), arity: self.arity, fun: self.fun }
    }
}

impl<'a> Value<'a> {
    /// A copy of the value. A copy of a list or of a set holds the slots
    /// that the value holds.
    pub fn duplicate(&self) -> (copy: Value<'a>)
        ensures
            copy@ == self@,
    {
        match self {
            Value::Int(n) => Value::Int(*n),
            Value::Bool(b) => Value::Bool(*b),
            Value::String(s) => Value::String(
                NixString { s: s.s.clone(), context: duplicate_strings(&s.context) },
            ),
            Value::Path(p) => Value::Path(p.clone()),
            Value::Null => Value::Null,
            Value::Attrs(b) => Value::Attrs(b.duplicate()),
            Value::List(items) => Value::List(duplicate_slots(items)),
            Value::Thunk(t) => Value::Thunk(*t),
            Value::App(a) => Value::App(*a),
            Value::Lambda(l) => Value::Lambda(*l),
            Value::Blackhole => Value::Blackhole,
            Value::PrimOp(p) => Value::PrimOp(p.duplicate()),
            Value::PrimOpApp(p) => Value::PrimOpApp(
                PrimOpApp { op: p.op.duplicate(), args: duplicate_slots(&p.args) },
            ),
            Value::External => Value::External,
            Value::Float(f) => Value::Float(*f),
        }
    }

    /// The kind of the value.
    pub fn kind(&self) -> (k: ValueKind)
        ensures
            k == kind_of(self@),
    {
        match self {
            Value::Int(_) => ValueKind::Int,
            Value::Bool(_) => ValueKind::Bool,
            Value::String(_) => ValueKind::String,
            Value::Path(_) => ValueKind::Path,
            Value::Null => ValueKind::Null,
            Value::Attrs(_) => ValueKind::Attrs,
            Value::List(_) => ValueKind::List,
            Value::Thunk(_) => ValueKind::Thunk,
            Value::App(_) => ValueKind::App,
            Value::Lambda(_) => ValueKind::Function,
            Value::Blackhole => ValueKind::Blackhole,
            Value::PrimOp(_) => ValueKind::Function,
            Value::PrimOpApp(_) => ValueKind::Function,
            Value::External => ValueKind::External,
            Value::Float(_) => ValueKind::Float,
        }
    }
}

impl<'a> EvalState<'a> {
    /// The symbol table interns no text twice, and the slots and the
    /// environments can be numbered.
    pub open spec fn wf(&self) -> bool {
        self.symbols.wf() && countable(self@)
    }

    /// The slots and the environments of a state can be numbered.
    pub proof fn lemma_countable(&self)
        ensures
            countable(self@),
    {
        assert(self.values@.len() == self.values.len());
        assert(self.envs@.len() == self.envs.len());
    }

    /// A state with no slot and no symbol, and with one environment: the
    /// outermost frame, which binds nothing yet.
    pub fn new() -> (state: EvalState<'a>)
        ensures
            state.wf(),
            state@.symbols.len() == 0,
            state@.values.len() == 0,
            state@.envs == seq![
                EnvView {
                    up: None,
                    prev_with: Level(0),
                    values: EnvInnerView::Plain(Seq::empty()),
                },
            ],
            sound(state@),
            setting_up(state@),
    {
        let mut envs: Vec<Env<'a>> = Vec::new();
        envs.push(Env { up: None, prev_with: Level(0), values: EnvInner::Plain(Vec::new()) });
        let state = EvalState { symbols: SymbolTable::new(), values: Vec::new(), envs };
        proof {
            state.lemma_countable();
        }
        assert(state@.envs =~= seq![
            EnvView { up: None, prev_with: Level(0), values: EnvInnerView::Plain(Seq::empty()) },
        ]);
        assert(env_sound(state@, None, 0));
        assert forall|e: EnvRef| e < state@.envs.len() implies #[trigger] env_sound(
            state@,
            None,
            e,
        ) by {
            assert(e == 0);
        }
        state
    }

    /// The value in `slot`, if there is such a slot.
    pub fn value(&self, slot: ValueRef) -> (v: Option<&Value<'a>>)
        ensures
            match v {
                Some(v) => self@.value_at(slot) == Some(v@),
                None => self@.value_at(slot) is None,
            },
    {
        if slot < self.values.len() {
            Some(&self.values[slot])
        } else {
            None
        }
    }

    /// Puts `v` into a new slot.
    pub fn push_value(&mut self, v: Value<'a>) -> (slot: ValueRef)
        requires
            old(self).wf(),
        ensures
            final(self).wf(),
            final(self)@ == old(self)@.push_value(v@).0,
            slot == old(self)@.push_value(v@).1,
    {
        let slot = self.values.len();
        self.values.push(v);
        assert(self@.values =~= old(self)@.values.push(v@));
        proof {
            self.lemma_countable();
        }
        slot
    }

    /// Puts `v` into `slot`, in place of what the slot holds. Does nothing
    /// if there is no such slot.
    pub fn put_value(&mut self, slot: ValueRef, v: Value<'a>)
        requires
            old(self).wf(),
        ensures
            final(self).wf(),
            final(self)@ == old(self)@.put(slot, v@),
    {
        if slot < self.values.len() {
            self.values.set(slot, v);
            assert(self@.values =~= old(self)@.values.update(slot as int, v@));
        }
    }

    /// Adds `env` as a new environment.
    pub fn push_env(&mut self, env: Env<'a>) -> (at: EnvRef)
        requires
            old(self).wf(),
        ensures
            final(self).wf(),
            final(self)@ == old(self)@.push_env(env@).0,
            at == old(self)@.push_env(env@).1,
    {
        let at = self.envs.len();
        self.envs.push(env);
        assert(self@.envs =~= old(self)@.envs.push(env@));
        proof {
            self.lemma_countable();
        }
        at
    }

    /// Lets the environment at `env` hold `values`. Does nothing if there
    /// is no such environment.
    pub fn put_env(&mut self, env: EnvRef, values: EnvInner<'a>)
        requires
            old(self).wf(),
        ensures
            final(self).wf(),
            final(self)@ == old(self)@.put_env(env, values@),
    {
        if env < self.envs.len() {
            let ghost view = values@;
            let frame = &mut self.envs[env];
            frame.values = values;
            assert(self@.envs =~= old(self)@.envs.update(
                env as int,
                EnvView {
                    up: old(self)@.envs[env as int].up,
                    prev_with: old(self)@.envs[env as int].prev_with,
                    values: view,
                },
            ));
        }
    }

    /// Interns `text`.
    pub fn intern(&mut self, text: String) -> (sym: Symbol)
        requires
            old(self).wf(),
        ensures
            final(self).wf(),
            final(self)@ == old(self)@.intern(text@).0,
            sym == old(self)@.intern(text@).1,
    {
        self.symbols.create(text)
    }

    /// Binds `name` in the outermost scope: the outermost frame gets a new
    /// slot that holds `v`, and `scope`, the static frame that stands for it,
    /// binds `name` to the displacement of that slot. Fails, and changes
    /// nothing, where the outermost frame holds no slots.
    pub fn define_global(&mut self, scope: &mut StaticEnv, name: Symbol, v: Value<'a>) -> (r:
        NixResult<Displ>)
        requires
            old(self).wf(),
        ensures
            final(self).wf(),
            final(scope).is_with == old(scope).is_with,
            final(scope).up == old(scope).up,
            match old(self)@.define_global(v@) {
                Some((h, displ)) => {
                    &&& final(self)@ == h
                    &&& r == Ok::<_, NixError>(displ)
                    &&& final(scope).vars@ == old(scope).vars@.insert(name, displ)
                },
                None => {
                    &&& final(self)@ == old(self)@
                    &&& r == Err::<Displ, _>(NixError::BadReference)
                    &&& final(scope).vars@ == old(scope).vars@
                },
            },
            can_define(old(self)@, v@) ==> r is Ok && sound(final(self)@) && setting_up(
                final(self)@,
            ),
            can_define(old(self)@, v@) && scope_fits(*old(scope), old(self)@) ==> scope_fits(
                *final(scope),
                final(self)@,
            ),
    {
        broadcast use vstd::std_specs::hash::group_hash_axioms;

        if self.envs.len() == 0 {
            return Err(NixError::BadReference);
        }
        let mut slots: Vec<ValueRef> = match &self.envs[0].values {
            EnvInner::Plain(slots) => duplicate_slots(slots),
            _ => {
                return Err(NixError::BadReference);
            },
        };
        let displ = Displ(slots.len());
        let slot = self.push_value(v);
        slots.push(slot);
        assert(slots@.len() == slots.len());
        self.put_env(0, EnvInner::Plain(slots));
        scope.vars.insert(name, displ);
        proof {
            if can_define(old(self)@, v@) {
                lemma_define_global_sound(old(self)@, v@);
                if scope_fits(*old(scope), old(self)@) {
                    let frames = scope.frames();
                    let before = old(scope).frames();
                    let shapes = shape(self@, 0, None);
                    assert(frames =~= seq![scope.frame()]);
                    assert(before =~= seq![old(scope).frame()]);
                    assert forall|i: int, n: Symbol|
                        0 <= i < frames.len() && (#[trigger] frames[i].vars.contains_key(
                            n,
                        )) implies !frames[i].is_with && frames[i].vars[n].0 < shapes[i].size by {
                        if n != name {
                            assert(before[0].vars.contains_key(n));
                        }
                    }
                }
            }
        }
        Ok(displ)
    }

    /// Binds each built-in function of `registry` in the outermost scope,
    /// under its name. Stops at the first that cannot be bound.
    pub fn register_prim_ops(&mut self, scope: &mut StaticEnv, registry: &RegisterPrimOp) -> (r:
        NixResult<()>)
        requires
            old(self).wf(),
        ensures
            final(self).wf(),
            final(scope).is_with == old(scope).is_with,
            final(scope).up == old(scope).up,
            (final(self)@, final(scope).vars@, r) == semantics::register_prim_ops(
                old(self)@,
                old(scope).vars@,
                registry.prim_ops@,
                0,
            ),
            sound(old(self)@) && setting_up(old(self)@) ==> r is Ok && sound(final(self)@)
                && setting_up(final(self)@),
            sound(old(self)@) && setting_up(old(self)@) && scope_fits(*old(scope), old(self)@)
                ==> scope_fits(*final(scope), final(self)@),
    {
        let n = registry.prim_ops.len();
        let mut i: usize = 0;
        while i < n
            invariant
                self.wf(),
                n == registry.prim_ops@.len(),
                i <= n,
                scope.is_with == old(scope).is_with,
                scope.up == old(scope).up,
                semantics::register_prim_ops(self@, scope.vars@, registry.prim_ops@, i as nat)
                    == semantics::register_prim_ops(
                    old(self)@,
                    old(scope).vars@,
                    registry.prim_ops@,
                    0,
                ),
                sound(old(self)@) && setting_up(old(self)@) ==> sound(self@) && setting_up(self@),
                sound(old(self)@) && setting_up(old(self)@) && scope_fits(
                    *old(scope),
                    old(self)@,
                ) ==> scope_fits(*scope, self@),
            decreases n - i,
        {
            let op = registry.prim_ops[i].duplicate();
            let ghost before = self@;
            let name = self.intern(op.name.clone());
            proof {
                if sound(before) && setting_up(before) {
                    crate::soundness::lemma_intern_sound(before, op.name@);
                    assert(shape(self@, 0, None) == shape(before, 0, None));
                }
            }
            match self.define_global(scope, name, Value::PrimOp(op)) {
                Ok(_) => {},
                Err(e) => {
                    return Err(e);
                },
            }
            i += 1;
        }
        Ok(())
    }

    /// The environment `n` frames up from `env`.
    pub fn walk_up(&self, env: EnvRef, n: usize) -> (found: Option<EnvRef>)
        ensures
            found == semantics::walk_up(self@, env, n as nat),
    {
        let mut cur = env;
        let mut k = n;
        loop
            invariant
                semantics::walk_up(self@, cur, k as nat) == semantics::walk_up(
                    self@,
                    env,
                    n as nat,
                ),
            decreases k,
        {
            if cur >= self.envs.len() {
                return None;
            }
            if k == 0 {
                return Some(cur);
            }
            match self.envs[cur].up {
                Some(up) => {
                    if up < cur {
                        cur = up;
                        k -= 1;
                    } else {
                        return None;
                    }
                },
                None => {
                    return None;
                },
            }
        }
    }

    /// The slot of a variable that resolution has bound to a frame.
    pub fn lookup_static(&self, env: EnvRef, var: &ExprVar) -> (found: Option<ValueRef>)
        ensures
            found == semantics::lookup_static(self@, env, *var),
    {
        proof {
            semantics::lemma_walk_up(self@, env, var.level.0 as nat);
        }
        match self.walk_up(env, var.level.0) {
            Some(e) => match &self.envs[e].values {
                EnvInner::Plain(slots) => {
                    if var.displ.0 < slots.len() {
                        Some(slots[var.displ.0])
                    } else {
                        None
                    }
                },
                _ => None,
            },
            None => None,
        }
    }

    /// The slot that stands for `e` in `env` without evaluating it.
    pub fn maybe_thunk(&mut self, env: EnvRef, e: &'a Expr) -> (slot: ValueRef)
        requires
            old(self).wf(),
        ensures
            final(self).wf(),
            final(self)@ == semantics::maybe_thunk(old(self)@, env, e).0,
            slot == semantics::maybe_thunk(old(self)@, env, e).1,
    {
        match e {
            Expr::Var(v) => {
                if v.resolved && !v.from_with {
                    match self.lookup_static(env, v) {
                        Some(slot) => {
                            return slot;
                        },
                        None => {},
                    }
                }
            },
            _ => {},
        }
        self.push_value(Value::Thunk(Thunk { env, expr: e }))
    }
}

} // verus!
