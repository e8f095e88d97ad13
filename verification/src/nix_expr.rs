//! The expression tree. A tree is built once, resolved once against the
//! static scopes that enclose it, and read-only from then on.

use crate::env::{
    bound_names, chain_from, innermost_binding, lemma_frames_step, lemma_innermost_binding, lemma_nearest_with,
    nearest_with, resolve, Displ, Level, Resolution, StaticEnv, StaticEnvIter, StaticFrame,
};
use crate::err::{NixError, NixResult};
use crate::pos::Pos;
use crate::symbol_table::Symbol;
use crate::value::{NixFloat, NixInt};
use vstd::prelude::*;

verus! {

/// One component of an attribute path: a name that is written out, or an
/// expression that computes the name. Where `expr` is present it decides,
/// and `symbol` is not read.
pub struct AttrName {
    pub symbol: Symbol,
    pub expr: Option<Box<Expr>>,
}

/// A path of attribute names, as in `a.b.c`.
pub type AttrPath = Vec<AttrName>;

/// The definition of an attribute whose name is written out.
pub struct AttrDef {
    /// Whether the attribute is inherited: its expression is then read in
    /// the scope around the set, also where the set is recursive.
    pub inherited: bool,
    pub expr: Box<Expr>,
    pub pos: Pos,
    /// The displacement of the attribute in the frame of a recursive set,
    /// assigned when the set is resolved.
    pub displ: Displ,
}

/// The definition of an attribute whose name is computed.
pub struct DynamicAttrDef {
    pub name_expr: Box<Expr>,
    pub value_expr: Box<Expr>,
    pub pos: Pos,
}

/// One formal of a function that takes a set, with its default if it has
/// one.
pub struct Formal {
    pub name: Symbol,
    pub def: Option<Box<Expr>>,
}

/// The formals of a function that takes a set. With `ellipsis`, the argument
/// may hold attributes that are no formals.
pub struct Formals {
    pub formals: Vec<Formal>,
    pub ellipsis: bool,
}

/// The binary operators.
#[derive(Clone, Copy, Debug, PartialEq, Eq, Structural)]
pub enum OpKind {
    App,
    Eq,
    NEq,
    And,
    Or,
    Impl,
    Update,
    ConcatLists,
}

/// A binary operation.
pub struct BinOp {
    pub kind: OpKind,
    pub pos: Pos,
    pub e1: Box<Expr>,
    pub e2: Box<Expr>,
}

/// A variable reference. The fields after `name` are written by resolution,
/// once, and read by evaluation.
#[derive(Clone, Copy, Debug, PartialEq, Eq, Structural)]
pub struct ExprVar {
    pub pos: Pos,
    pub name: Symbol,
    /// Whether resolution has assigned the fields below.
    pub resolved: bool,
    /// Whether the variable is to be looked up in the attribute sets of the
    /// enclosing `with` expressions, at evaluation time.
    pub from_with: bool,
    /// How many frames lie between the reference and the frame that binds
    /// it or, with `from_with`, the nearest `with` frame.
    pub level: Level,
    /// The slot of the variable in its frame. Not read with `from_with`.
    pub displ: Displ,
}

impl ExprVar {
    /// The reference as resolution leaves it when it resolves the name
    /// against `frames`. Where the name is found nowhere, the reference
    /// stays as it is.
    pub open spec fn resolved_in(self, frames: Seq<StaticFrame>) -> ExprVar {
        match resolve(frames, self.name) {
            Resolution::Bound { level, displ } => ExprVar {
                pos: self.pos,
                name: self.name,
                resolved: true,
                from_with: false,
                level: Level(level as usize),
                displ,
            },
            Resolution::FromWith { level } => ExprVar {
                pos: self.pos,
                name: self.name,
                resolved: true,
                from_with: true,
                level: Level(level as usize),
                displ: self.displ,
            },
            Resolution::Unbound => self,
        }
    }

    /// Resolves the reference against the static chain that begins at
    /// `env`: to the innermost frame that binds its name; failing that, to
    /// the nearest `with`, for lookup at evaluation time; failing that, the
    /// variable is undefined.
    pub fn bind_vars(&mut self, env: &StaticEnv) -> (r: NixResult<()>)
        requires
            env.depth() <= usize::MAX,
        ensures
            *final(self) == old(self).resolved_in(env.frames()),
            r == if resolve(env.frames(), old(self).name) is Unbound {
                Err::<(), _>(NixError::UndefinedVar(old(self).name, old(self).pos))
            } else {
                Ok(())
            },
    {
        broadcast use vstd::std_specs::hash::group_hash_axioms;

        let ghost frames = env.frames();
        let name = self.name;
        let mut with_level: Option<Level> = None;
        let mut iter = StaticEnvIter::new(env);
        proof {
            assert(frames.skip(0) =~= frames);
        }
        loop
            invariant
                frames == env.frames(),
                frames.len() <= usize::MAX,
                name == self.name,
                *self == *old(self),
                iter.level.0 <= frames.len(),
                chain_from(iter.cur_env) == frames.skip(iter.level.0 as int),
                with_level == iter.with_level,
                forall|j: int| 0 <= j < iter.level.0 ==> !frames[j].vars.contains_key(name),
                match with_level {
                    Some(w) => w.0 < iter.level.0 && frames[w.0 as int].is_with && forall|j: int|
                        0 <= j < w.0 ==> !frames[j].is_with,
                    None => forall|j: int| 0 <= j < iter.level.0 ==> !frames[j].is_with,
                },
            ensures
                iter.cur_env is None,
            decreases frames.len() - iter.level.0,
        {
            let ghost level = iter.level.0 as int;
            proof {
                if iter.cur_env is Some {
                    lemma_frames_step(iter.cur_env->0);
                    assert(frames.skip(iter.level.0 as int).len() >= 1);
                    assert(frames.skip(iter.level.0 as int)[0] == frames[iter.level.0 as int]);
                    assert(frames.skip(iter.level.0 as int).skip(1) =~= frames.skip(
                        iter.level.0 as int + 1,
                    ));
                } else {
                    assert(frames.skip(iter.level.0 as int).len() == 0);
                }
            }
            match iter.next() {
                None => {
                    break ;
                },
                Some(env_level) => {
                    with_level = env_level.with_level;
                    match env_level.env.vars.get(&name) {
                        Some(displ) => {
                            proof {
                                assert(frames[level] == env_level.env.frame());
                                assert(frames[level].vars.contains_key(name));
                                assert(frames[level].vars[name] == *displ);
                                lemma_innermost_binding(frames, name);
                                assert(bound_names(frames).contains(name));
                            }
                            self.resolved = true;
                            self.from_with = false;
                            self.level = env_level.level;
                            self.displ = *displ;
                            return Ok(());
                        },
                        None => {},
                    }
                },
            }
        }
        proof {
            assert(frames.skip(iter.level.0 as int).len() == 0);
            lemma_innermost_binding(frames, name);
            lemma_nearest_with(frames);
            if innermost_binding(frames, name) is Some {
                let i = choose|i: int|
                    0 <= i < frames.len() && #[trigger] frames[i].vars.contains_key(name);
                assert(false);
            }
            if nearest_with(frames) is Some && with_level is None {
                let i = choose|i: int| 0 <= i < frames.len() && #[trigger] frames[i].is_with;
                assert(false);
            }
        }
        match with_level {
            None => Err(NixError::UndefinedVar(self.name, self.pos)),
            Some(with_level) => {
                self.resolved = true;
                self.from_with = true;
                self.level = with_level;
                Ok(())
            },
        }
    }
}

/// A selection `e.a.b.c`, with the default of `e.a.b.c or def`.
pub struct ExprSelect {
    pub pos: Pos,
    pub expr: Box<Expr>,
    pub def: Option<Box<Expr>>,
    pub attr_path: AttrPath,
}

/// The test `e ? a.b.c`.
pub struct ExprOpHasAttr {
    pub expr: Box<Expr>,
    pub attr_path: AttrPath,
}

/// An attribute set literal. The order of `attrs` is the order of the slots
/// in the frame of a recursive set.
pub struct ExprAttrs {
    pub recursive: bool,
    pub attrs: Vec<(Symbol, AttrDef)>,
    pub dynamic_attrs: Vec<DynamicAttrDef>,
}

/// A function. It binds its argument to `arg`, or, with `match_attrs`, takes
/// a set and binds each formal to the attribute of its name; it may do both.
pub struct ExprLambda {
    pub pos: Pos,
    pub name: Symbol,
    pub arg: Option<Symbol>,
    pub match_attrs: bool,
    pub formals: Formals,
    pub body: Box<Expr>,
}

/// `let` bindings around a body. The bindings see each other.
pub struct ExprLet {
    pub attrs: Box<ExprAttrs>,
    pub body: Box<Expr>,
}

/// `with attrs; body`.
pub struct ExprWith {
    pub pos: Pos,
    pub attrs: Box<Expr>,
    pub body: Box<Expr>,
    /// How many frames lie between the frame of this `with` and that of the
    /// nearest `with` around it; zero if there is none. Assigned by
    /// resolution.
    pub prev_with: Level,
}

/// `if cond then then_ else else_`.
pub struct ExprIf {
    pub cond: Box<Expr>,
    pub then_: Box<Expr>,
    pub else_: Box<Expr>,
}

/// `assert cond; body`.
pub struct ExprAssert {
    pub pos: Pos,
    pub cond: Box<Expr>,
    pub body: Box<Expr>,
}

/// The concatenation of the values of `exprs`. With `force_string` the
/// result is always a string; without it, integers are added.
pub struct ExprConcatStrings {
    pub pos: Pos,
    pub force_string: bool,
    pub exprs: Vec<Expr>,
}

/// An expression.
pub enum Expr {
    Int(NixInt),
    Float(NixFloat),
    Bool(bool),
    Null,
    String(Symbol),
    Path(String),
    Var(ExprVar),
    Select(ExprSelect),
    OpHasAttr(ExprOpHasAttr),
    Attrs(ExprAttrs),
    List(Vec<Expr>),
    Lambda(ExprLambda),
    Let(ExprLet),
    With(ExprWith),
    If(ExprIf),
    Assert(ExprAssert),
    OpNot(Box<Expr>),
    BinOp(BinOp),
    ConcatStrings(ExprConcatStrings),
    /// The position of the expression itself.
    Pos(Pos),
}

} // verus!
