//! Walks an expression tree against a numeric backend and a mutable
//! variable environment.
//!
//! The environment maps identifiers to bindings; assignment overwrites
//! a binding and yields the assigned value as its own result. A call to
//! a user-defined function checks the argument count against the
//! declared parameters, evaluates the arguments left to right, and
//! evaluates the body in a scoped copy of the environment that binds
//! each parameter; the caller's bindings stay as they were after the
//! arguments. Because bodies held in the environment can call each
//! other without bound, evaluation carries a nesting allowance and
//! fails once calls nest deeper than `CALL_DEPTH`.

use vstd::prelude::*;

use crate::lexer::Function;
use crate::lexer::Operator;
use crate::num::Num;
use crate::parser::{expr_view, exprs_view, CalleeV, Expr, ExprV};

verus! {

/// How deep calls to user-defined functions may nest. Bodies held in
/// the environment can call each other without bound, so evaluation
/// must carry some cap to stay total; 64 is far deeper than hand-written
/// calculator definitions nest while keeping stack use modest.
pub const CALL_DEPTH: usize = 64;

/// The ways evaluation can fail.
#[derive(Debug, Clone, PartialEq)]
pub enum InterpretError {
    TooFewArgs(String, usize),
    TooManyArgs(String, usize),
    VarDoesNotExist(String),
    VarIsNotFunction(String),
    FunctionNameUsedLikeVar(String),
    UnsupportedOperation,
    RecursionLimit,
}

/// The mathematical image of an evaluation failure.
pub enum InterpErrV {
    TooFewArgs(Seq<char>, int),
    TooManyArgs(Seq<char>, int),
    VarDoesNotExist(Seq<char>),
    VarIsNotFunction(Seq<char>),
    FunctionNameUsedLikeVar(Seq<char>),
    UnsupportedOperation,
    RecursionLimit,
}

impl View for InterpretError {
    type V = InterpErrV;

    open spec fn view(&self) -> InterpErrV {
        match self {
            InterpretError::TooFewArgs(name, n) => InterpErrV::TooFewArgs(name@, *n as int),
            InterpretError::TooManyArgs(name, n) => InterpErrV::TooManyArgs(name@, *n as int),
            InterpretError::VarDoesNotExist(name) => InterpErrV::VarDoesNotExist(name@),
            InterpretError::VarIsNotFunction(name) => InterpErrV::VarIsNotFunction(name@),
            InterpretError::FunctionNameUsedLikeVar(name) => InterpErrV::FunctionNameUsedLikeVar(
                name@,
            ),
            InterpretError::UnsupportedOperation => InterpErrV::UnsupportedOperation,
            InterpretError::RecursionLimit => InterpErrV::RecursionLimit,
        }
    }
}

/// A user-defined function: its parameter names and its body.
#[derive(Debug)]
pub struct FunctionDef {
    pub params: Vec<String>,
    pub body: Expr,
}

/// What an identifier is bound to: a number, or a user-defined
/// function.
#[derive(Debug)]
pub enum Variant<N> {
    Num(N),
    Function(FunctionDef),
}

/// The mathematical image of a binding.
pub enum VariantV<V> {
    Num(V),
    Function(Seq<Seq<char>>, ExprV),
}

/// The mathematical image of a binding's content.
pub open spec fn variant_view<N: Num>(v: Variant<N>) -> VariantV<N::Value> {
    match v {
        Variant::Num(n) => VariantV::Num(n.val()),
        Variant::Function(fd) => VariantV::Function(
            fd.params@.map_values(|s: String| s@),
            expr_view(fd.body),
        ),
    }
}

/// The abstract environment: identifiers to binding images.
pub type EnvMap<V> = Map<Seq<char>, VariantV<V>>;

/// The map a binding list stands for; a later entry shadows an earlier
/// one with the same name.
pub open spec fn env_map<N: Num>(s: Seq<(String, Variant<N>)>) -> EnvMap<N::Value>
    decreases s,
{
    if s.len() == 0 {
        Map::empty()
    } else {
        env_map(s.drop_last()).insert(s.last().0@, variant_view(s.last().1))
    }
}

/// The variable environment: a list of bindings where the latest entry
/// for a name wins. It is exposed read-only for display through
/// `bindings`.
#[derive(Debug)]
pub struct Env<N> {
    pub pairs: Vec<(String, Variant<N>)>,
}

impl<N: Num> View for Env<N> {
    type V = EnvMap<N::Value>;

    open spec fn view(&self) -> EnvMap<N::Value> {
        env_map(self.pairs@)
    }
}

impl<N: Num> Env<N> {
    /// The empty environment.
    pub fn new() -> (r: Env<N>)
        ensures
            r@ == EnvMap::<N::Value>::empty(),
    {
        let r = Env { pairs: Vec::new() };
        proof {
            assert(r.pairs@.len() == 0);
        }
        r
    }

    /// Binds a name, shadowing any earlier binding of it.
    pub fn set(&mut self, name: String, v: Variant<N>)
        ensures
            final(self)@ == old(self)@.insert(name@, variant_view(v)),
    {
        let ghost before = self.pairs@;
        self.pairs.push((name, v));
        proof {
            assert(self.pairs@.drop_last() =~= before);
        }
    }

    /// A copy of what the name is bound to, or nothing.
    pub fn lookup_dup(&self, name: &String) -> (r: Option<Variant<N>>)
        ensures
            match r {
                Some(v) => self@.contains_key(name@) && variant_view(v) == self@[name@],
                None => !self@.contains_key(name@),
            },
    {
        let ghost s = self.pairs@;
        let mut j = self.pairs.len();
        proof {
            assert(s.take(s.len() as int) =~= s);
        }
        while j > 0
            invariant
                s == self.pairs@,
                j <= s.len(),
                env_map(s).contains_key(name@) == env_map(s.take(j as int)).contains_key(name@),
                env_map(s.take(j as int)).contains_key(name@) ==> env_map(s.take(j as int))[name@]
                    == env_map(s)[name@],
            decreases j,
        {
            j -= 1;
            proof {
                assert(s.take(j + 1).drop_last() =~= s.take(j as int));
                assert(s.take(j + 1).last() == s[j as int]);
            }
            if self.pairs[j].0 == *name {
                let v = variant_dup(&self.pairs[j].1);
                return Some(v);
            }
        }
        proof {
            assert(s.take(0) =~= Seq::<(String, Variant<N>)>::empty());
        }
        None
    }

    /// A copy of the whole environment, for the scoped extension a
    /// function call evaluates its body in.
    pub fn dup(&self) -> (r: Env<N>)
        ensures
            r@ == self@,
    {
        let mut pairs: Vec<(String, Variant<N>)> = Vec::new();
        let mut i: usize = 0;
        while i < self.pairs.len()
            invariant
                i <= self.pairs@.len(),
                pairs@.len() == i,
                forall|k: int|
                    0 <= k < i ==> pairs@[k].0@ == self.pairs@[k].0@ && variant_view(pairs@[k].1)
                        == variant_view(self.pairs@[k].1),
            decreases self.pairs@.len() - i,
        {
            let name = self.pairs[i].0.clone();
            let v = variant_dup(&self.pairs[i].1);
            pairs.push((name, v));
            i += 1;
        }
        let r = Env { pairs };
        proof {
            lemma_env_map_congruent(r.pairs@, self.pairs@);
        }
        r
    }

    /// The bindings, latest last; a later entry shadows an earlier one
    /// with the same name.
    pub fn bindings(&self) -> (r: &Vec<(String, Variant<N>)>)
        ensures
            env_map(r@) == self@,
    {
        &self.pairs
    }
}

/// Binding lists equal name-for-name and content-for-content stand for
/// the same map.
proof fn lemma_env_map_congruent<N: Num>(
    a: Seq<(String, Variant<N>)>,
    b: Seq<(String, Variant<N>)>,
)
    requires
        a.len() == b.len(),
        forall|k: int|
            0 <= k < a.len() ==> a[k].0@ == b[k].0@ && variant_view(a[k].1) == variant_view(
                b[k].1,
            ),
    ensures
        env_map(a) == env_map(b),
    decreases a,
{
    if a.len() > 0 {
        lemma_env_map_congruent(a.drop_last(), b.drop_last());
        assert(env_map(a) =~= env_map(b));
    }
}

/// A copy of a binding's content that stands for the same image.
fn variant_dup<N: Num>(v: &Variant<N>) -> (r: Variant<N>)
    ensures
        variant_view(r) == variant_view(*v),
{
    match v {
        Variant::Num(n) => Variant::Num(n.dup()),
        Variant::Function(fd) => {
            let mut params: Vec<String> = Vec::new();
            let mut i: usize = 0;
            while i < fd.params.len()
                invariant
                    i <= fd.params@.len(),
                    params@.len() == i,
                    forall|k: int| 0 <= k < i ==> params@[k]@ == fd.params@[k]@,
                decreases fd.params@.len() - i,
            {
                let name = fd.params[i].clone();
                params.push(name);
                i += 1;
            }
            let body = crate::parser::expr_dup(&fd.body);
            proof {
                assert(params@.map_values(|s: String| s@) =~= fd.params@.map_values(
                    |s: String| s@,
                ));
            }
            Variant::Function(FunctionDef { params, body })
        },
    }
}

/// The name a built-in function is called by.
pub open spec fn builtin_name(f: Function) -> Seq<char> {
    match f {
        Function::Sqrt => "sqrt"@,
        Function::Sin => "sin"@,
        Function::Cos => "cos"@,
        Function::Tan => "tan"@,
        Function::Log => "log"@,
        Function::Abs => "abs"@,
    }
}

/// The exec name a built-in function is called by.
fn builtin_name_string(f: Function) -> (r: String)
    ensures
        r@ == builtin_name(f),
{
    match f {
        Function::Sqrt => String::from_str("sqrt"),
        Function::Sin => String::from_str("sin"),
        Function::Cos => String::from_str("cos"),
        Function::Tan => String::from_str("tan"),
        Function::Log => String::from_str("log"),
        Function::Abs => String::from_str("abs"),
    }
}

/// What a built-in function computes on the backend.
pub open spec fn sp_builtin<N: Num>(f: Function, v: N::Value) -> Option<N::Value> {
    match f {
        Function::Sqrt => N::sp_sqrt(v),
        Function::Sin => N::sp_sin(v),
        Function::Cos => N::sp_cos(v),
        Function::Tan => N::sp_tan(v),
        Function::Log => N::sp_log(v),
        Function::Abs => N::sp_abs(v),
    }
}

/// Applies a built-in function on the backend.
fn builtin_apply<N: Num>(f: Function, v: &N) -> (r: Option<N>)
    ensures
        match r {
            Some(x) => sp_builtin::<N>(f, v.val()) == Some(x.val()),
            None => sp_builtin::<N>(f, v.val()) is None,
        },
{
    match f {
        Function::Sqrt => v.sqrt_num(),
        Function::Sin => v.sin_num(),
        Function::Cos => v.cos_num(),
        Function::Tan => v.tan_num(),
        Function::Log => v.log_num(),
        Function::Abs => v.abs_num(),
    }
}

/// What a binary operator computes on the backend; only the five
/// arithmetic operators compute anything.
pub open spec fn sp_binop<N: Num>(op: Operator, a: N::Value, b: N::Value) -> Option<N::Value> {
    match op {
        Operator::Plus => N::sp_add(a, b),
        Operator::Minus => N::sp_sub(a, b),
        Operator::Star => N::sp_mul(a, b),
        Operator::Slash => N::sp_div(a, b),
        Operator::Percent => N::sp_rem(a, b),
        _ => None,
    }
}

/// Applies a binary operator on the backend.
fn binop_apply<N: Num>(op: Operator, a: &N, b: &N) -> (r: Option<N>)
    ensures
        match r {
            Some(x) => sp_binop::<N>(op, a.val(), b.val()) == Some(x.val()),
            None => sp_binop::<N>(op, a.val(), b.val()) is None,
        },
{
    match op {
        Operator::Plus => a.add_num(b),
        Operator::Minus => a.sub_num(b),
        Operator::Star => a.mul_num(b),
        Operator::Slash => a.div_num(b),
        Operator::Percent => a.rem_num(b),
        _ => None,
    }
}

/// The environment a function body runs in: the caller's bindings with
/// each parameter bound to its argument.
pub open spec fn sp_bind<V>(env: EnvMap<V>, params: Seq<Seq<char>>, vals: Seq<V>) -> EnvMap<V>
    decreases params.len(),
{
    if params.len() == 0 || vals.len() == 0 {
        env
    } else {
        sp_bind(env.insert(params[0], VariantV::Num(vals[0])), params.skip(1), vals.skip(1))
    }
}

/// The outcome of evaluating one expression: its value or failure, and
/// the environment it leaves behind.
pub open spec fn sp_eval<N: Num>(e: ExprV, env: EnvMap<N::Value>, fuel: nat) -> (Result<
    N::Value,
    InterpErrV,
>, EnvMap<N::Value>)
    decreases fuel, e, 0int,
{
    match e {
        ExprV::NumberLiteral(t) => {
            match N::sp_from_literal(t) {
                Some(v) => (Ok(v), env),
                None => (Err(InterpErrV::UnsupportedOperation), env),
            }
        },
        ExprV::Constant(c) => {
            let r = match c {
                crate::lexer::Constant::Pi => N::sp_pi(),
                crate::lexer::Constant::E => N::sp_e(),
            };
            match r {
                Some(v) => (Ok(v), env),
                None => (Err(InterpErrV::UnsupportedOperation), env),
            }
        },
        ExprV::Identifier(name) => {
            if env.contains_key(name) {
                match env[name] {
                    VariantV::Num(v) => (Ok(v), env),
                    VariantV::Function(_, _) => (
                        Err(InterpErrV::FunctionNameUsedLikeVar(name)),
                        env,
                    ),
                }
            } else {
                (Err(InterpErrV::VarDoesNotExist(name)), env)
            }
        },
        ExprV::Negate(inner) => {
            let (r, env1) = sp_eval::<N>(*inner, env, fuel);
            match r {
                Ok(v) => {
                    match N::sp_neg(v) {
                        Some(x) => (Ok(x), env1),
                        None => (Err(InterpErrV::UnsupportedOperation), env1),
                    }
                },
                Err(err) => (Err(err), env1),
            }
        },
        ExprV::BinaryOp(op, l, rr) => {
            let (r1, env1) = sp_eval::<N>(*l, env, fuel);
            match r1 {
                Ok(a) => {
                    let (r2, env2) = sp_eval::<N>(*rr, env1, fuel);
                    match r2 {
                        Ok(b) => {
                            match sp_binop::<N>(op, a, b) {
                                Some(x) => (Ok(x), env2),
                                None => (Err(InterpErrV::UnsupportedOperation), env2),
                            }
                        },
                        Err(err) => (Err(err), env2),
                    }
                },
                Err(err) => (Err(err), env1),
            }
        },
        ExprV::Power(l, rr) => {
            let (r1, env1) = sp_eval::<N>(*l, env, fuel);
            match r1 {
                Ok(a) => {
                    let (r2, env2) = sp_eval::<N>(*rr, env1, fuel);
                    match r2 {
                        Ok(b) => {
                            match N::sp_pow(a, b) {
                                Some(x) => (Ok(x), env2),
                                None => (Err(InterpErrV::UnsupportedOperation), env2),
                            }
                        },
                        Err(err) => (Err(err), env2),
                    }
                },
                Err(err) => (Err(err), env1),
            }
        },
        ExprV::Assignment(name, inner) => {
            let (r, env1) = sp_eval::<N>(*inner, env, fuel);
            match r {
                Ok(v) => (Ok(v), env1.insert(name, VariantV::Num(v))),
                Err(err) => (Err(err), env1),
            }
        },
        ExprV::FunctionCall(callee, args) => {
            match callee {
                CalleeV::Builtin(f) => {
                    if args.len() < 1 {
                        (Err(InterpErrV::TooFewArgs(builtin_name(f), 1)), env)
                    } else if args.len() > 1 {
                        (Err(InterpErrV::TooManyArgs(builtin_name(f), 1)), env)
                    } else {
                        let (r, env1) = sp_eval::<N>(args[0], env, fuel);
                        match r {
                            Ok(v) => {
                                match sp_builtin::<N>(f, v) {
                                    Some(x) => (Ok(x), env1),
                                    None => (Err(InterpErrV::UnsupportedOperation), env1),
                                }
                            },
                            Err(err) => (Err(err), env1),
                        }
                    }
                },
                CalleeV::User(name) => {
                    if !env.contains_key(name) {
                        (Err(InterpErrV::VarDoesNotExist(name)), env)
                    } else {
                        match env[name] {
                            VariantV::Num(_) => (Err(InterpErrV::VarIsNotFunction(name)), env),
                            VariantV::Function(params, body) => {
                                if args.len() < params.len() {
                                    (
                                        Err(
                                            InterpErrV::TooFewArgs(name, params.len() as int),
                                        ),
                                        env,
                                    )
                                } else if args.len() > params.len() {
                                    (
                                        Err(
                                            InterpErrV::TooManyArgs(name, params.len() as int),
                                        ),
                                        env,
                                    )
                                } else {
                                    let (rs, env1) = sp_eval_args::<N>(args, env, fuel);
                                    match rs {
                                        Ok(vals) => {
                                            if fuel == 0 {
                                                (Err(InterpErrV::RecursionLimit), env1)
                                            } else {
                                                let overlay = sp_bind(env1, params, vals);
                                                let (rb, _) = sp_eval::<N>(
                                                    body,
                                                    overlay,
                                                    (fuel - 1) as nat,
                                                );
                                                (rb, env1)
                                            }
                                        },
                                        Err(err) => (Err(err), env1),
                                    }
                                }
                            },
                        }
                    }
                },
            }
        },
    }
}

/// The outcome of evaluating an argument list left to right: the values
/// or the first failure, and the environment left behind.
pub open spec fn sp_eval_args<N: Num>(args: Seq<ExprV>, env: EnvMap<N::Value>, fuel: nat) -> (
    Result<Seq<N::Value>, InterpErrV>,
    EnvMap<N::Value>,
)
    decreases fuel, args, 1int,
{
    if args.len() == 0 {
        (Ok(Seq::empty()), env)
    } else {
        let (r, env1) = sp_eval::<N>(args[0], env, fuel);
        match r {
            Ok(v) => {
                let (rs, env2) = sp_eval_args::<N>(args.subrange(1, args.len() as int), env1, fuel);
                match rs {
                    Ok(vs) => (Ok(seq![v] + vs), env2),
                    Err(err) => (Err(err), env2),
                }
            },
            Err(err) => (Err(err), env1),
        }
    }
}

/// The values of a result vector.
pub open spec fn vals_view<N: Num>(v: Seq<N>) -> Seq<N::Value> {
    v.map_values(|n: N| n.val())
}

/// Evaluates one expression against the environment, with `fuel` calls
/// of user-defined functions still allowed to nest.
#[verifier::rlimit(100)]
fn eval_expr<N: Num>(env: &mut Env<N>, e: &Expr, fuel: usize) -> (r: Result<N, InterpretError>)
    ensures
        final(env)@ == sp_eval::<N>(expr_view(*e), old(env)@, fuel as nat).1,
        (match r {
            Ok(v) => sp_eval::<N>(expr_view(*e), old(env)@, fuel as nat).0 == Ok::<
                N::Value,
                InterpErrV,
            >(v.val()),
            Err(err) => sp_eval::<N>(expr_view(*e), old(env)@, fuel as nat).0 == Err::<
                N::Value,
                InterpErrV,
            >(err@),
        }),
    decreases fuel, *e, 1int,
{
    match e {
        Expr::NumberLiteral(t) => {
            match N::from_literal(t.as_str()) {
                Some(v) => Ok(v),
                None => Err(InterpretError::UnsupportedOperation),
            }
        },
        Expr::Constant(c) => {
            let r = match c {
                crate::lexer::Constant::Pi => N::pi(),
                crate::lexer::Constant::E => N::e_const(),
            };
            match r {
                Some(v) => Ok(v),
                None => Err(InterpretError::UnsupportedOperation),
            }
        },
        Expr::Identifier(name) => {
            match env.lookup_dup(name) {
                Some(Variant::Num(n)) => Ok(n),
                Some(Variant::Function(_)) => Err(
                    InterpretError::FunctionNameUsedLikeVar(name.clone()),
                ),
                None => Err(InterpretError::VarDoesNotExist(name.clone())),
            }
        },
        Expr::Negate(inner) => {
            match eval_expr(env, inner, fuel) {
                Ok(v) => {
                    match v.neg_num() {
                        Some(x) => Ok(x),
                        None => Err(InterpretError::UnsupportedOperation),
                    }
                },
                Err(err) => Err(err),
            }
        },
        Expr::BinaryOp(op, l, rr) => {
            match eval_expr(env, l, fuel) {
                Ok(a) => {
                    match eval_expr(env, rr, fuel) {
                        Ok(b) => {
                            match binop_apply(*op, &a, &b) {
                                Some(x) => Ok(x),
                                None => Err(InterpretError::UnsupportedOperation),
                            }
                        },
                        Err(err) => Err(err),
                    }
                },
                Err(err) => Err(err),
            }
        },
        Expr::Power(l, rr) => {
            match eval_expr(env, l, fuel) {
                Ok(a) => {
                    match eval_expr(env, rr, fuel) {
                        Ok(b) => {
                            match a.pow_num(&b) {
                                Some(x) => Ok(x),
                                None => Err(InterpretError::UnsupportedOperation),
                            }
                        },
                        Err(err) => Err(err),
                    }
                },
                Err(err) => Err(err),
            }
        },
        Expr::Assignment(name, inner) => {
            match eval_expr(env, inner, fuel) {
                Ok(v) => {
                    let out = v.dup();
                    env.set(name.clone(), Variant::Num(v));
                    Ok(out)
                },
                Err(err) => Err(err),
            }
        },
        Expr::FunctionCall(callee, args) => {
            proof {
                let whole = *e;
                assert(whole is FunctionCall);
                assert(decreases_to!(whole => whole->FunctionCall_1));
                assert(whole->FunctionCall_1 == *args);
                crate::parser::lemma_exprs_view_index(args@);
            }
            match callee {
                crate::parser::Callee::Builtin(f) => {
                    if args.len() < 1 {
                        Err(InterpretError::TooFewArgs(builtin_name_string(*f), 1))
                    } else if args.len() > 1 {
                        Err(InterpretError::TooManyArgs(builtin_name_string(*f), 1))
                    } else {
                        proof {
                            assert(decreases_to!(*args => args@));
                            assert(decreases_to!(args@ => args@[0]));
                            assert(exprs_view(args@)[0] == expr_view(args@[0]));
                        }
                        match eval_expr(env, &args[0], fuel) {
                            Ok(v) => {
                                match builtin_apply(*f, &v) {
                                    Some(x) => Ok(x),
                                    None => Err(InterpretError::UnsupportedOperation),
                                }
                            },
                            Err(err) => Err(err),
                        }
                    }
                },
                crate::parser::Callee::User(name) => {
                    let looked = env.lookup_dup(name);
                    match looked {
                        None => Err(InterpretError::VarDoesNotExist(name.clone())),
                        Some(Variant::Num(_)) => Err(
                            InterpretError::VarIsNotFunction(name.clone()),
                        ),
                        Some(Variant::Function(fd)) => {
                            if args.len() < fd.params.len() {
                                Err(InterpretError::TooFewArgs(name.clone(), fd.params.len()))
                            } else if args.len() > fd.params.len() {
                                Err(InterpretError::TooManyArgs(name.clone(), fd.params.len()))
                            } else {
                                match eval_args(env, args, fuel, Ghost(*e)) {
                                    Ok(vals) => {
                                        if fuel == 0 {
                                            Err(InterpretError::RecursionLimit)
                                        } else {
                                            let mut call_env = env.dup();
                                            let ghost base = call_env@;
                                            let ghost params_v = fd.params@.map_values(
                                                |s: String| s@,
                                            );
                                            let ghost vals_v = vals_view::<N>(vals@);
                                            let mut k: usize = 0;
                                            proof {
                                                assert(params_v.skip(0) =~= params_v);
                                                assert(vals_v.skip(0) =~= vals_v);
                                            }
                                            while k < fd.params.len()
                                                invariant
                                                    fd.params@.len() == vals@.len(),
                                                    k <= fd.params@.len(),
                                                    params_v == fd.params@.map_values(
                                                        |s: String| s@,
                                                    ),
                                                    vals_v == vals_view::<N>(vals@),
                                                    sp_bind(base, params_v, vals_v) == sp_bind(
                                                        call_env@,
                                                        params_v.skip(k as int),
                                                        vals_v.skip(k as int),
                                                    ),
                                                decreases fd.params@.len() - k,
                                            {
                                                let pname = fd.params[k].clone();
                                                let varg = vals[k].dup();
                                                call_env.set(pname, Variant::Num(varg));
                                                k += 1;
                                                proof {
                                                    assert(params_v.skip(k - 1)[0] == params_v[k
                                                        - 1]);
                                                    assert(vals_v.skip(k - 1)[0] == vals_v[k - 1]);
                                                    assert(params_v.skip(k - 1).skip(1) =~= params_v.skip(
                                                        k as int,
                                                    ));
                                                    assert(vals_v.skip(k - 1).skip(1) =~= vals_v.skip(
                                                        k as int,
                                                    ));
                                                    assert(vals_v[k - 1] == vals@[k - 1].val());
                                                }
                                            }
                                            proof {
                                                assert(params_v.skip(params_v.len() as int)
                                                    =~= Seq::<Seq<char>>::empty());
                                                assert(vals_v.skip(vals_v.len() as int) =~= Seq::<
                                                    N::Value,
                                                >::empty());
                                                assert(sp_bind(base, params_v, vals_v)
                                                    == call_env@);
                                            }
                                            let rb = eval_expr(&mut call_env, &fd.body, fuel - 1);
                                            rb
                                        }
                                    },
                                    Err(err) => Err(err),
                                }
                            }
                        },
                    }
                },
            }
        },
    }
}

/// Evaluates an argument list left to right against the environment.
fn eval_args<N: Num>(env: &mut Env<N>, args: &Vec<Expr>, fuel: usize, parent: Ghost<Expr>) -> (r:
    Result<Vec<N>, InterpretError>)
    requires
        decreases_to!(parent@ => *args),
    ensures
        final(env)@ == sp_eval_args::<N>(exprs_view(args@), old(env)@, fuel as nat).1,
        (match r {
            Ok(vals) => sp_eval_args::<N>(exprs_view(args@), old(env)@, fuel as nat).0 == Ok::<
                Seq<N::Value>,
                InterpErrV,
            >(vals_view::<N>(vals@)) && vals@.len() == args@.len(),
            Err(err) => sp_eval_args::<N>(exprs_view(args@), old(env)@, fuel as nat).0 == Err::<
                Seq<N::Value>,
                InterpErrV,
            >(err@),
        }),
    decreases fuel, parent@, 0int,
{
    let ghost full = exprs_view(args@);
    let mut out: Vec<N> = Vec::new();
    let mut k: usize = 0;
    proof {
        crate::parser::lemma_exprs_view_index(args@);
        assert(vals_view::<N>(out@) =~= Seq::<N::Value>::empty());
        assert(exprs_view(args@).subrange(0, args@.len() as int) =~= full);
        assert forall|vs: Seq<N::Value>| (Seq::<N::Value>::empty() + vs) =~= vs by {}
    }
    while k < args.len()
        invariant
            full == exprs_view(args@),
            decreases_to!(parent@ => *args),
            k <= args@.len(),
            out@.len() == k,
            ({
                let step = sp_eval_args::<N>(
                    exprs_view(args@).subrange(k as int, args@.len() as int),
                    env@,
                    fuel as nat,
                );
                let whole = sp_eval_args::<N>(full, old(env)@, fuel as nat);
                &&& whole.1 == step.1
                &&& (match step.0 {
                    Ok(vs) => whole.0 == Ok::<Seq<N::Value>, InterpErrV>(
                        vals_view::<N>(out@) + vs,
                    ),
                    Err(err) => whole.0 == Err::<Seq<N::Value>, InterpErrV>(err),
                })
            }),
        decreases args@.len() - k,
    {
        proof {
            crate::parser::lemma_exprs_view_index(args@);
            assert(decreases_to!(*args => args@));
            assert(decreases_to!(args@ => args@[k as int]));
            let rest = exprs_view(args@).subrange(k as int, args@.len() as int);
            assert(rest[0] == expr_view(args@[k as int]));
            assert(rest.subrange(1, rest.len() as int) =~= exprs_view(args@).subrange(
                k + 1,
                args@.len() as int,
            ));
        }
        let ghost out_before = out@;
        match eval_expr(env, &args[k], fuel) {
            Ok(v) => {
                out.push(v);
                k += 1;
                proof {
                    assert(vals_view::<N>(out@) =~= vals_view::<N>(out_before).push(
                        out@[out@.len() - 1].val(),
                    ));
                    let rest = sp_eval_args::<N>(
                        exprs_view(args@).subrange(k as int, args@.len() as int),
                        env@,
                        fuel as nat,
                    );
                    if rest.0 is Ok {
                        assert((vals_view::<N>(out_before) + (seq![out@[out@.len() - 1].val()]
                            + rest.0->Ok_0)) =~= vals_view::<N>(out@) + rest.0->Ok_0);
                    }
                }
            },
            Err(err) => {
                return Err(err);
            },
        }
    }
    proof {
        assert(exprs_view(args@).subrange(k as int, args@.len() as int) =~= Seq::<ExprV>::empty());
        assert(vals_view::<N>(out@) + Seq::<N::Value>::empty() =~= vals_view::<N>(out@));
    }
    Ok(out)
}

/// Drives evaluation against one environment and one numeric backend
/// for its whole lifetime; assignments mutate the environment in place.
#[derive(Debug)]
pub struct Interpreter<N> {
    pub vars: Env<N>,
}

impl<N: Num> Interpreter<N> {
    /// An interpreter over a fresh, empty environment.
    pub fn new() -> (r: Interpreter<N>)
        ensures
            r.vars@ == EnvMap::<N::Value>::empty(),
    {
        Interpreter { vars: Env::new() }
    }

    /// Evaluates one expression tree: its value, or the first failure.
    /// Assignments inside the expression persist in `vars`.
    pub fn eval(&mut self, expr: &Expr) -> (r: Result<N, InterpretError>)
        ensures
            final(self).vars@ == sp_eval::<N>(expr_view(*expr), old(self).vars@,
                CALL_DEPTH as nat).1,
            (match r {
                Ok(v) => sp_eval::<N>(expr_view(*expr), old(self).vars@, CALL_DEPTH as nat).0
                    == Ok::<N::Value, InterpErrV>(v.val()),
                Err(err) => sp_eval::<N>(expr_view(*expr), old(self).vars@, CALL_DEPTH as nat).0
                    == Err::<N::Value, InterpErrV>(err@),
            }),
    {
        eval_expr(&mut self.vars, expr, CALL_DEPTH)
    }
}

} // verus!
