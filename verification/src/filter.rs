//! Filter expressions and their evaluation.
//!
//! A filter consumes a stream of input values under a context and produces
//! a stream of output values together with a possibly-extended context.
//! Raised exceptions are ordinary values in the output stream. Evaluation
//! carries a fuel bound on the depth of named-filter calls, so that
//! recursive definitions cannot run the engine forever; exhausting it
//! produces an exception value, like any other failure.

use vstd::prelude::*;
use crate::rational::{Rational, red_num, red_den};
use crate::value::{
    Value, VModel, Object, vmodel, vmodels, clone_value, lemma_vmodels_index,
};
use crate::context::{Context, CtxModel, ctx_lookup};
use vstd::string::StringExecFns;

verus! {

/// A filter expression. The surface grammar and parser are external; the
/// engine receives this tree opaquely built.
pub enum Filter {
    /// Emits nothing.
    Empty,
    /// Emits the input stream unchanged.
    Identity,
    /// Emits the given value once.
    Literal(Value),
    /// Emits the left branch's outputs, then the right branch's, both over
    /// the same input stream.
    Comma(Box<Filter>, Box<Filter>),
    /// Feeds the left branch's outputs, and its context, to the right.
    Pipe(Box<Filter>, Box<Filter>),
    /// Emits the products of the two branches' outputs, pairwise over the
    /// cartesian product in emission order.
    Times(Box<Filter>, Box<Filter>),
    /// Applies the filter bound to the name in the context.
    Call(String),
    /// Binds `name` to `body` and evaluates `rest` under, and exports, the
    /// extended context.
    Def(String, Box<Filter>, Box<Filter>),
}

/// The model of a filter expression.
pub enum FModel {
    Empty,
    Identity,
    Literal(VModel),
    Comma(Seq<FModel>),
    Pipe(Seq<FModel>),
    Times(Seq<FModel>),
    Call(Seq<char>),
    Def(Seq<char>, Seq<FModel>),
}

pub open spec fn fmodel(f: Filter) -> FModel
    decreases f,
{
    match f {
        Filter::Empty => FModel::Empty,
        Filter::Identity => FModel::Identity,
        Filter::Literal(v) => FModel::Literal(vmodel(v)),
        Filter::Comma(a, b) => FModel::Comma(seq![fmodel(*a), fmodel(*b)]),
        Filter::Pipe(a, b) => FModel::Pipe(seq![fmodel(*a), fmodel(*b)]),
        Filter::Times(a, b) => FModel::Times(seq![fmodel(*a), fmodel(*b)]),
        Filter::Call(n) => FModel::Call(n@),
        Filter::Def(n, body, rest) => FModel::Def(n@, seq![fmodel(*body), fmodel(*rest)]),
    }
}

pub open spec fn fsize(f: FModel) -> nat
    decreases f,
{
    match f {
        FModel::Empty => 1,
        FModel::Identity => 1,
        FModel::Literal(_) => 1,
        FModel::Comma(s) => 1 + fsize_seq(s),
        FModel::Pipe(s) => 1 + fsize_seq(s),
        FModel::Times(s) => 1 + fsize_seq(s),
        FModel::Call(_) => 1,
        FModel::Def(_, s) => 1 + fsize_seq(s),
    }
}

pub open spec fn fsize_seq(s: Seq<FModel>) -> nat
    decreases s,
{
    if s.len() == 0 {
        1
    } else {
        1 + fsize(s[0]) + fsize_seq(s.drop_first())
    }
}

/// Both members of a two-element sequence weigh less than the sequence.
pub proof fn lemma_fsize_two(s: Seq<FModel>)
    requires
        s.len() == 2,
    ensures
        fsize(s[0]) < fsize_seq(s),
        fsize(s[1]) < fsize_seq(s),
{
    assert(s.drop_first()[0] == s[1]);
    assert(fsize_seq(s) == 1 + fsize(s[0]) + fsize_seq(s.drop_first()));
    assert(fsize_seq(s.drop_first()) == 1 + fsize(s[1]) + fsize_seq(s.drop_first().drop_first()));
}

/// Deep copy of a filter expression, preserving its model.
pub fn clone_filter(f: &Filter) -> (r: Filter)
    ensures
        fmodel(r) == fmodel(*f),
    decreases *f,
{
    match f {
        Filter::Empty => Filter::Empty,
        Filter::Identity => Filter::Identity,
        Filter::Literal(v) => Filter::Literal(clone_value(v)),
        Filter::Comma(a, b) => Filter::Comma(
            Box::new(clone_filter(a)),
            Box::new(clone_filter(b)),
        ),
        Filter::Pipe(a, b) => Filter::Pipe(
            Box::new(clone_filter(a)),
            Box::new(clone_filter(b)),
        ),
        Filter::Times(a, b) => Filter::Times(
            Box::new(clone_filter(a)),
            Box::new(clone_filter(b)),
        ),
        Filter::Call(n) => Filter::Call(n.clone()),
        Filter::Def(n, body, rest) => Filter::Def(
            n.clone(),
            Box::new(clone_filter(body)),
            Box::new(clone_filter(rest)),
        ),
    }
}

impl Clone for Filter {
    fn clone(&self) -> (r: Filter)
        ensures
            fmodel(r) == fmodel(*self),
    {
        clone_filter(self)
    }
}

// ---------------------------------------------------------------------------
// Multiplication of values: the one arithmetic builtin the engine carries,
// enough to exercise user-defined filters over numbers.
// ---------------------------------------------------------------------------

/// The product of two values: the exact rational product when both are
/// numbers with positive denominators and the reduced product fits the
/// number representation; an `overflow` exception when it does not; and a
/// `type` exception when either operand is no number. Exceptions are
/// ordinary values in the output stream.
pub open spec fn times_v(a: VModel, b: VModel) -> VModel {
    match (a, b) {
        (VModel::Number(r1), VModel::Number(r2)) => {
            let pn = r1.num as int * r2.num as int;
            let pd = r1.den as int * r2.den as int;
            if r1.den >= 1 && r2.den >= 1 && i64::MIN <= red_num(pn, pd) <= i64::MAX
                && red_den(pn, pd) <= i64::MAX {
                VModel::Number(Rational { num: red_num(pn, pd) as i64, den: red_den(pn, pd) as i64 })
            } else {
                VModel::Exception("overflow"@, Seq::empty())
            }
        },
        _ => VModel::Exception("type"@, Seq::empty()),
    }
}

pub open spec fn times_one(x: VModel, ys: Seq<VModel>) -> Seq<VModel>
    decreases ys.len(),
{
    if ys.len() == 0 {
        Seq::empty()
    } else {
        seq![times_v(x, ys[0])] + times_one(x, ys.drop_first())
    }
}

pub open spec fn times_all(xs: Seq<VModel>, ys: Seq<VModel>) -> Seq<VModel>
    decreases xs.len(),
{
    if xs.len() == 0 {
        Seq::empty()
    } else {
        times_one(xs[0], ys) + times_all(xs.drop_first(), ys)
    }
}

// ---------------------------------------------------------------------------
// Evaluation.
// ---------------------------------------------------------------------------

/// What evaluating a filter yields: the output stream, in emission order,
/// and the resulting context. `fuel` bounds the depth of named calls; an
/// exhausted budget or an unbound name emits an exception value.
pub open spec fn eval(f: FModel, ctx: CtxModel, inputs: Seq<VModel>, fuel: nat) -> (Seq<
    VModel,
>, CtxModel)
    decreases fuel, fsize(f),
    via eval_decreases
{
    match f {
        FModel::Empty => (Seq::empty(), ctx),
        FModel::Identity => (inputs, ctx),
        FModel::Literal(v) => (seq![v], ctx),
        FModel::Comma(s) => if s.len() == 2 {
            (eval(s[0], ctx, inputs, fuel).0 + eval(s[1], ctx, inputs, fuel).0, ctx)
        } else {
            (Seq::empty(), ctx)
        },
        FModel::Pipe(s) => if s.len() == 2 {
            let left = eval(s[0], ctx, inputs, fuel);
            eval(s[1], left.1, left.0, fuel)
        } else {
            (Seq::empty(), ctx)
        },
        FModel::Times(s) => if s.len() == 2 {
            (times_all(eval(s[0], ctx, inputs, fuel).0, eval(s[1], ctx, inputs, fuel).0), ctx)
        } else {
            (Seq::empty(), ctx)
        },
        FModel::Call(n) => if fuel == 0 {
            (seq![VModel::Exception("recursion"@, Seq::empty())], ctx)
        } else {
            match ctx_lookup(ctx, n) {
                Option::Some(g) => eval(g, ctx, inputs, (fuel - 1) as nat),
                Option::None => (seq![VModel::Exception("undefined"@, Seq::empty())], ctx),
            }
        },
        FModel::Def(n, s) => if s.len() == 2 {
            eval(s[1], ctx.push((n, s[0])), inputs, fuel)
        } else {
            (Seq::empty(), ctx)
        },
    }
}

#[via_fn]
proof fn eval_decreases(f: FModel, ctx: CtxModel, inputs: Seq<VModel>, fuel: nat) {
    match f {
        FModel::Comma(s) => if s.len() == 2 { lemma_fsize_two(s) },
        FModel::Pipe(s) => if s.len() == 2 { lemma_fsize_two(s) },
        FModel::Times(s) => if s.len() == 2 { lemma_fsize_two(s) },
        FModel::Def(_, s) => if s.len() == 2 { lemma_fsize_two(s) },
        _ => {},
    }
}

/// Runs a filter over an input stream under a context: returns the output
/// values in emission order and the resulting context, per `eval`.
pub fn run_filter(f: &Filter, ctx: &Context, inputs: &Vec<Value>, fuel: u64) -> (r: (
    Vec<Value>,
    Context,
))
    ensures
        vmodels(r.0@) == eval(fmodel(*f), ctx@, vmodels(inputs@), fuel as nat).0,
        r.1@ == eval(fmodel(*f), ctx@, vmodels(inputs@), fuel as nat).1,
    decreases fuel, fsize(fmodel(*f)),
{
    match f {
        Filter::Empty => {
            let r = (Vec::new(), ctx.duplicate());
            proof {
                assert(vmodels(r.0@) =~= eval(fmodel(*f), ctx@, vmodels(inputs@), fuel as nat).0);
            }
            r
        },
        Filter::Identity => {
            let out = clone_values(inputs);
            (out, ctx.duplicate())
        },
        Filter::Literal(v) => {
            let mut out: Vec<Value> = Vec::new();
            out.push(clone_value(v));
            proof {
                lemma_vmodels_index(out@);
                assert(vmodels(out@) =~= seq![vmodel(*v)]);
            }
            (out, ctx.duplicate())
        },
        Filter::Comma(a, b) => {
            proof {
                lemma_fsize_two(seq![fmodel(**a), fmodel(**b)]);
            }
            let (mut oa, _ca) = run_filter(a, ctx, inputs, fuel);
            let (mut ob, _cb) = run_filter(b, ctx, inputs, fuel);
            let ghost ma = vmodels(oa@);
            let ghost mb = vmodels(ob@);
            proof {
                lemma_vmodels_index(oa@);
                lemma_vmodels_index(ob@);
            }
            oa.append(&mut ob);
            proof {
                lemma_vmodels_append(oa@, ma, mb);
            }
            (oa, ctx.duplicate())
        },
        Filter::Pipe(a, b) => {
            proof {
                lemma_fsize_two(seq![fmodel(**a), fmodel(**b)]);
            }
            let (oa, ca) = run_filter(a, ctx, inputs, fuel);
            run_filter(b, &ca, &oa, fuel)
        },
        Filter::Times(a, b) => {
            proof {
                lemma_fsize_two(seq![fmodel(**a), fmodel(**b)]);
            }
            let (oa, _ca) = run_filter(a, ctx, inputs, fuel);
            let (ob, _cb) = run_filter(b, ctx, inputs, fuel);
            let mut out: Vec<Value> = Vec::new();
            proof {
                assert(vmodels(oa@).skip(0) =~= vmodels(oa@));
            }
            times_from(&oa, 0, &ob, &mut out);
            proof {
                assert(vmodels(out@) =~= times_all(vmodels(oa@), vmodels(ob@)));
            }
            (out, ctx.duplicate())
        },
        Filter::Call(n) => {
            if fuel == 0 {
                let mut out: Vec<Value> = Vec::new();
                out.push(Value::Exception(String::from_str("recursion"), Object::new()));
                proof {
                    lemma_vmodels_index(out@);
                    assert(vmodels(out@) =~= seq![
                        VModel::Exception("recursion"@, Seq::<(
                            crate::value::HModel,
                            VModel,
                        )>::empty()),
                    ]);
                }
                (out, ctx.duplicate())
            } else {
                match ctx.lookup(n) {
                    Option::Some(g) => run_filter(g, ctx, inputs, fuel - 1),
                    Option::None => {
                        let mut out: Vec<Value> = Vec::new();
                        out.push(Value::Exception(String::from_str("undefined"), Object::new()));
                        proof {
                            lemma_vmodels_index(out@);
                            assert(vmodels(out@) =~= seq![
                                VModel::Exception("undefined"@, Seq::<(
                                    crate::value::HModel,
                                    VModel,
                                )>::empty()),
                            ]);
                        }
                        (out, ctx.duplicate())
                    },
                }
            }
        },
        Filter::Def(n, body, rest) => {
            proof {
                lemma_fsize_two(seq![fmodel(**body), fmodel(**rest)]);
            }
            let ctx2 = ctx.with_binding(n, body);
            run_filter(rest, &ctx2, inputs, fuel)
        },
    }
}

/// Deep copy of a value stream, preserving its models.
pub fn clone_values(inputs: &Vec<Value>) -> (out: Vec<Value>)
    ensures
        vmodels(out@) == vmodels(inputs@),
{
    proof {
        lemma_vmodels_index(inputs@);
    }
    let n = inputs.len();
    let mut out: Vec<Value> = Vec::new();
    let mut i: usize = 0;
    while i < n
        invariant
            n == inputs@.len(),
            i <= n,
            out@.len() == i,
            forall|j: int| 0 <= j < i ==> vmodel(out@[j]) == vmodel(inputs@[j]),
        decreases n - i,
    {
        out.push(clone_value(&inputs[i]));
        i += 1;
    }
    proof {
        lemma_vmodels_index(out@);
        lemma_vmodels_index(inputs@);
        assert(vmodels(out@) =~= vmodels(inputs@));
    }
    out
}

proof fn lemma_vmodels_append(s: Seq<Value>, ma: Seq<VModel>, mb: Seq<VModel>)
    requires
        s.len() == ma.len() + mb.len(),
        forall|i: int| 0 <= i < ma.len() ==> vmodel(s[i]) == ma[i],
        forall|i: int| ma.len() <= i < s.len() ==> vmodel(s[i]) == mb[i - ma.len()],
    ensures
        vmodels(s) == ma + mb,
{
    lemma_vmodels_index(s);
    assert(vmodels(s) =~= ma + mb);
}

/// Emits the product of one left value with each right value, in order.
fn times_one_from(x: &Value, ys: &Vec<Value>, j: usize, out: &mut Vec<Value>)
    requires
        j <= ys@.len(),
    ensures
        vmodels(final(out)@) == vmodels(old(out)@) + times_one(vmodel(*x), vmodels(ys@).skip(
            j as int,
        )),
    decreases ys@.len() - j,
{
    proof {
        lemma_vmodels_index(ys@);
        lemma_vmodels_index(out@);
    }
    if j < ys.len() {
        let ghost suffix = vmodels(ys@).skip(j as int);
        proof {
            assert(suffix[0] == vmodel(ys@[j as int]));
            assert(suffix.drop_first() =~= vmodels(ys@).skip(j + 1));
        }
        let p = times_exec(x, &ys[j]);
        proof {
            lemma_vmodels_index(out@.push(p));
        }
        out.push(p);
        times_one_from(x, ys, j + 1, out);
        proof {
            lemma_vmodels_index(out@);
            assert(vmodels(out@) =~= vmodels(old(out)@) + times_one(vmodel(*x), suffix));
        }
    } else {
        proof {
            assert(vmodels(ys@).skip(j as int) =~= Seq::<VModel>::empty());
            assert(vmodels(out@) =~= vmodels(old(out)@) + times_one(
                vmodel(*x),
                vmodels(ys@).skip(j as int),
            ));
        }
    }
}

/// Emits all pairwise products, left values outermost.
fn times_from(xs: &Vec<Value>, i: usize, ys: &Vec<Value>, out: &mut Vec<Value>)
    requires
        i <= xs@.len(),
    ensures
        vmodels(final(out)@) == vmodels(old(out)@) + times_all(vmodels(xs@).skip(i as int), vmodels(
            ys@,
        )),
    decreases xs@.len() - i,
{
    proof {
        lemma_vmodels_index(xs@);
    }
    if i < xs.len() {
        let ghost suffix = vmodels(xs@).skip(i as int);
        proof {
            assert(suffix[0] == vmodel(xs@[i as int]));
            assert(suffix.drop_first() =~= vmodels(xs@).skip(i + 1));
        }
        times_one_from(&xs[i], ys, 0, out);
        proof {
            assert(vmodels(ys@).skip(0) =~= vmodels(ys@));
        }
        times_from(xs, i + 1, ys, out);
        proof {
            assert(vmodels(out@) =~= vmodels(old(out)@) + times_all(suffix, vmodels(ys@)));
        }
    } else {
        proof {
            assert(vmodels(xs@).skip(i as int) =~= Seq::<VModel>::empty());
            assert(vmodels(out@) =~= vmodels(old(out)@) + times_all(
                vmodels(xs@).skip(i as int),
                vmodels(ys@),
            ));
        }
    }
}

/// The product of two values, per `times_v`.
fn times_exec(a: &Value, b: &Value) -> (r: Value)
    ensures
        vmodel(r) == times_v(vmodel(*a), vmodel(*b)),
{
    match (a, b) {
        (Value::Number(r1), Value::Number(r2)) => {
            if r1.den >= 1 && r2.den >= 1 {
                match r1.mul(*r2) {
                    Option::Some(q) => Value::Number(q),
                    Option::None => Value::Exception(String::from_str("overflow"), Object::new()),
                }
            } else {
                Value::Exception(String::from_str("overflow"), Object::new())
            }
        },
        _ => Value::Exception(String::from_str("type"), Object::new()),
    }
}

/// A filter with no binding-affecting operation: no definition and no
/// named call anywhere in it.
pub open spec fn binding_free(f: FModel) -> bool
    decreases fsize(f),
    via binding_free_decreases
{
    match f {
        FModel::Empty => true,
        FModel::Identity => true,
        FModel::Literal(_) => true,
        FModel::Comma(s) => s.len() == 2 && binding_free(s[0]) && binding_free(s[1]),
        FModel::Pipe(s) => s.len() == 2 && binding_free(s[0]) && binding_free(s[1]),
        FModel::Times(s) => s.len() == 2 && binding_free(s[0]) && binding_free(s[1]),
        FModel::Call(_) => false,
        FModel::Def(_, _) => false,
    }
}

#[via_fn]
proof fn binding_free_decreases(f: FModel) {
    match f {
        FModel::Comma(s) => if s.len() == 2 { lemma_fsize_two(s) },
        FModel::Pipe(s) => if s.len() == 2 { lemma_fsize_two(s) },
        FModel::Times(s) => if s.len() == 2 { lemma_fsize_two(s) },
        _ => {},
    }
}

/// A binding-free filter resolves its output context to the unchanged
/// input context, independently of its value stream: the context of such a
/// stage never waits on value production or exhaustion.
pub proof fn lemma_binding_free_keeps_context(
    f: FModel,
    ctx: CtxModel,
    inputs: Seq<VModel>,
    fuel: nat,
)
    requires
        binding_free(f),
    ensures
        eval(f, ctx, inputs, fuel).1 == ctx,
    decreases fuel, fsize(f),
{
    match f {
        FModel::Pipe(s) => {
            lemma_fsize_two(s);
            lemma_binding_free_keeps_context(s[0], ctx, inputs, fuel);
            lemma_binding_free_keeps_context(s[1], ctx, eval(s[0], ctx, inputs, fuel).0, fuel);
        },
        _ => {},
    }
}

/// Exception transparency: piping any stage into a pass-through filter
/// yields that stage's outputs unchanged — an exception among them flows
/// on exactly like any other value, unless a stage specifically matches
/// and replaces it.
pub proof fn lemma_exception_transparency(a: FModel, ctx: CtxModel, inputs: Seq<VModel>, fuel: nat)
    ensures
        eval(FModel::Pipe(seq![a, FModel::Identity]), ctx, inputs, fuel).0
            == eval(a, ctx, inputs, fuel).0,
{
    let s = seq![a, FModel::Identity];
    assert(s.len() == 2 && s[0] == a && s[1] == FModel::Identity);
    let left = eval(a, ctx, inputs, fuel);
    assert(eval(FModel::Identity, left.1, left.0, fuel) == (left.0, left.1));
}

// ---------------------------------------------------------------------------
// The shell's recovery obligation: a reported parse failure is replaced by
// the neutral empty filter, so evaluation of later input can continue.
// ---------------------------------------------------------------------------

/// Accepts a parse result and substitutes the empty filter for a syntax
/// error: the error never enters the value or channel model.
pub fn recover_parse(r: Result<Filter, String>) -> (f: Filter)
    ensures
        match r {
            Result::Ok(g) => fmodel(f) == fmodel(g),
            Result::Err(_) => fmodel(f) == FModel::Empty,
        },
{
    match r {
        Result::Ok(g) => g,
        Result::Err(_) => Filter::Empty,
    }
}

} // verus!

