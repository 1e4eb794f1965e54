//! The meaning of a program, written once as a specification-level
//! interpreter over abstract values.
//!
//! `s_eval` is a big-step interpreter with an explicit depth budget
//! (`fuel`): every nested evaluation costs one unit, and a program that
//! nests deeper than the budget stops with a `Runtime` error instead of
//! exhausting the host stack. The executable evaluator is proved to return
//! exactly what these functions say, so every contract below is also a
//! statement about the running code.
//!
//! The interpreter threads a `StackV`: the scope frames (index 0 the base
//! frame, the last entry the innermost), and the values recorded by the
//! `debug` intrinsic. The frame discipline — one pop for every push, on
//! success and on failure alike — is a theorem about these functions
//! (`lemma_eval_frame_balance`).

use vstd::prelude::*;

use crate::ast::NodeV;
use crate::error::ErrV;

verus! {

use vstd::math::abs;

/// A runtime value, in abstract form.
#[verifier::ext_equal]
pub enum DataV {
    /// A captured, unevaluated syntax node.
    Quote(NodeV),
    Int(i32),
    Str(Seq<char>),
    /// A native callable, identified by name alone.
    Intrinsic(Seq<char>),
    /// A user-defined callable: parameter names and body.
    Function(Seq<Seq<char>>, NodeV),
    /// Unit result, as returned by `let` or `debug`.
    Empty,
}

/// One scope frame: a finite map from names to values.
pub type FrameV = Map<Seq<char>, DataV>;

/// Abstract interpreter state: the scope frames (index 0 the base frame,
/// never removed; the last entry the innermost), and the values the
/// `debug` intrinsic has recorded, oldest first.
#[verifier::ext_equal]
pub struct StackV {
    pub frames: Seq<FrameV>,
    pub out: Seq<DataV>,
}

/// The outcome of one evaluation: a value or an error, and the state the
/// evaluation left behind.
pub type StepV = (Result<DataV, ErrV>, StackV);

/// Scan the frames innermost-first for `name`; the first match wins, so an
/// inner binding shadows an outer one.
pub open spec fn s_lookup(frames: Seq<FrameV>, name: Seq<char>) -> Option<DataV>
    decreases frames.len(),
{
    if frames.len() == 0 {
        None
    } else if frames.last().contains_key(name) {
        Some(frames.last()[name])
    } else {
        s_lookup(frames.drop_last(), name)
    }
}

/// The truthiness rule applied by `if`: the quoted identifier `true`,
/// non-zero integers and non-empty strings are true; every other value is
/// false.
pub open spec fn s_truthy(d: DataV) -> bool {
    match d {
        DataV::Quote(n) => n == NodeV::Identifier("true"@),
        DataV::Int(i) => i != 0,
        DataV::Str(s) => s.len() != 0,
        _ => false,
    }
}

/// Push an empty frame.
pub open spec fn push_frame(st: StackV) -> StackV {
    StackV { frames: st.frames.push(Map::empty()), ..st }
}

/// Pop the innermost frame.
pub open spec fn pop_frame(st: StackV) -> StackV {
    StackV { frames: st.frames.drop_last(), ..st }
}

/// Bind `name` to `v` in the innermost frame.
pub open spec fn bind_top(st: StackV, name: Seq<char>, v: DataV) -> StackV {
    StackV {
        frames: st.frames.update(
            st.frames.len() - 1,
            st.frames.last().insert(name, v),
        ),
        ..st
    }
}

/// Truncated division, as the `/` intrinsic computes it: the quotient of
/// the absolute values, negated when the signs differ.
pub open spec fn tdiv(a: int, b: int) -> int {
    let q = (abs(a) / abs(b)) as int;
    if (a < 0) != (b < 0) {
        -q
    } else {
        q
    }
}

/// Truncated remainder, as the `mod` intrinsic computes it: the remainder
/// of the absolute values, carrying the sign of the dividend.
pub open spec fn tmod(a: int, b: int) -> int {
    let r = (abs(a) % abs(b)) as int;
    if a < 0 {
        -r
    } else {
        r
    }
}

/// The arithmetic intrinsics, distinguished for the shared shape check.
pub enum ArithOp {
    Add,
    Sub,
    Mul,
    Div,
    Mod,
}

/// What an arithmetic intrinsic returns on two integer operands: the exact
/// result when it fits in 32 signed bits, a `Runtime` error when it does
/// not, and a `Runtime` error for division or modulo by zero.
pub open spec fn s_arith_ints(op: ArithOp, a: i32, b: i32) -> Result<DataV, ErrV> {
    match op {
        ArithOp::Add => if i32::MIN <= a + b <= i32::MAX {
            Ok(DataV::Int((a + b) as i32))
        } else {
            Err(ErrV::Runtime)
        },
        ArithOp::Sub => if i32::MIN <= a - b <= i32::MAX {
            Ok(DataV::Int((a - b) as i32))
        } else {
            Err(ErrV::Runtime)
        },
        ArithOp::Mul => if i32::MIN <= a * b <= i32::MAX {
            Ok(DataV::Int((a * b) as i32))
        } else {
            Err(ErrV::Runtime)
        },
        ArithOp::Div => if b == 0 || (a == i32::MIN && b == -1) {
            Err(ErrV::Runtime)
        } else {
            Ok(DataV::Int(tdiv(a as int, b as int) as i32))
        },
        ArithOp::Mod => if b == 0 {
            Err(ErrV::Runtime)
        } else {
            Ok(DataV::Int(tmod(a as int, b as int) as i32))
        },
    }
}

/// What `fn` returns: the first argument must be a list of identifiers
/// (the parameter names), the second is kept unevaluated as the body.
/// Nothing is evaluated, so the state does not change.
pub open spec fn s_fnform(raw: Seq<NodeV>) -> Result<DataV, ErrV> {
    if raw.len() < 1 {
        Err(ErrV::SyntaxError)
    } else {
        match raw[0] {
            NodeV::List(ns) => if !(forall|i: int|
                0 <= i < ns.len() ==> ns[i] is Identifier) {
                Err(ErrV::SyntaxError)
            } else if raw.len() < 2 {
                Err(ErrV::SyntaxError)
            } else {
                Ok(DataV::Function(
                    Seq::new(ns.len(), |i: int| ns[i]->Identifier_0),
                    raw[1],
                ))
            },
            _ => Err(ErrV::SyntaxError),
        }
    }
}

/// What `quote` returns: its first argument, captured unevaluated.
pub open spec fn s_quoteform(raw: Seq<NodeV>) -> Result<DataV, ErrV> {
    if raw.len() == 0 {
        Err(ErrV::SyntaxError)
    } else {
        Ok(DataV::Quote(raw[0]))
    }
}

/// Evaluate one node. A budget of zero stops with a `Runtime` error;
/// identifiers are looked up innermost-first; literals wrap themselves;
/// a quote is evaluation-inert; a list is a function application: its head
/// is evaluated to a callable, which receives the remaining nodes raw.
pub open spec fn s_eval(n: NodeV, st: StackV, fuel: nat) -> StepV
    decreases fuel, 6int, 0int,
{
    if fuel == 0 {
        (Err(ErrV::Runtime), st)
    } else {
        match n {
            NodeV::Identifier(x) => match s_lookup(st.frames, x) {
                Some(d) => (Ok(d), st),
                None => (Err(ErrV::VariableNotFound(x)), st),
            },
            NodeV::StringLiteral(s) => (Ok(DataV::Str(s)), st),
            NodeV::IntegerLiteral(i) => (Ok(DataV::Int(i)), st),
            NodeV::Quote(b) => (Ok(DataV::Quote(*b)), st),
            NodeV::List(items) => if items.len() == 0 {
                (Err(ErrV::SyntaxError), st)
            } else {
                let (hr, st1) = s_eval(items[0], st, (fuel - 1) as nat);
                match hr {
                    Ok(c) => s_apply(c, items.drop_first(), st1, fuel),
                    Err(e) => (Err(e), st1),
                }
            },
        }
    }
}

/// Apply a callable to raw argument nodes. An intrinsic receives them
/// unevaluated and decides itself what to evaluate. A user function first
/// checks arity, then pushes a fresh frame, evaluates each argument in
/// that frame and binds it under the matching parameter name, evaluates
/// the body there, and pops the frame again on every exit path. Any other
/// value is not callable.
pub open spec fn s_apply(c: DataV, raw: Seq<NodeV>, st: StackV, fuel: nat) -> StepV
    decreases fuel, 5int, 0int,
{
    if fuel == 0 {
        (Err(ErrV::Runtime), st)
    } else {
        match c {
            DataV::Intrinsic(name) => s_dispatch(name, raw, st, fuel),
            DataV::Function(params, body) => if raw.len() != params.len() {
                (Err(ErrV::SyntaxError), st)
            } else {
                let (br, st1) = s_bind(params, raw, 0, push_frame(st), fuel);
                match br {
                    Ok(_) => {
                        let (r, st2) = s_eval(body, st1, (fuel - 1) as nat);
                        (r, pop_frame(st2))
                    },
                    Err(e) => (Err(e), pop_frame(st1)),
                }
            },
            _ => (Err(ErrV::TypeError), st),
        }
    }
}

/// Evaluate the arguments of a user function from position `i` on, binding
/// each result under the matching parameter name in the innermost (freshly
/// pushed) frame. The first error stops the walk.
pub open spec fn s_bind(
    params: Seq<Seq<char>>,
    raw: Seq<NodeV>,
    i: int,
    st: StackV,
    fuel: nat,
) -> (Result<(), ErrV>, StackV)
    decreases fuel, 2int, raw.len() - i,
{
    if fuel == 0 {
        (Err(ErrV::Runtime), st)
    } else if i < 0 || i >= raw.len() {
        (Ok(()), st)
    } else {
        let (r, st1) = s_eval(raw[i], st, (fuel - 1) as nat);
        match r {
            Err(e) => (Err(e), st1),
            Ok(v) => s_bind(params, raw, i + 1, bind_top(st1, params[i], v), fuel),
        }
    }
}

/// Dispatch an intrinsic by name. The base frame holds exactly these
/// names; a forged intrinsic value with any other name is not callable.
pub open spec fn s_dispatch(name: Seq<char>, raw: Seq<NodeV>, st: StackV, fuel: nat) -> StepV
    decreases fuel, 4int, 0int,
{
    if name == "let"@ {
        s_let(raw, st, fuel)
    } else if name == "do"@ {
        s_do(raw, st, fuel)
    } else if name == "if"@ {
        s_if(raw, st, fuel)
    } else if name == "fn"@ {
        (s_fnform(raw), st)
    } else if name == "quote"@ {
        (s_quoteform(raw), st)
    } else if name == "unquote"@ {
        s_unquote(raw, st, fuel)
    } else if name == "debug"@ {
        s_debug(raw, 0, st, fuel)
    } else if name == "+"@ {
        s_arith(ArithOp::Add, raw, st, fuel)
    } else if name == "-"@ {
        s_arith(ArithOp::Sub, raw, st, fuel)
    } else if name == "*"@ {
        s_arith(ArithOp::Mul, raw, st, fuel)
    } else if name == "/"@ {
        s_arith(ArithOp::Div, raw, st, fuel)
    } else if name == "mod"@ {
        s_arith(ArithOp::Mod, raw, st, fuel)
    } else if name == "="@ {
        s_eqform(raw, st, fuel)
    } else if name == "!="@ {
        s_neform(raw, st, fuel)
    } else {
        (Err(ErrV::TypeError), st)
    }
}

/// `let`: an even number of arguments, read pairwise.
pub open spec fn s_let(raw: Seq<NodeV>, st: StackV, fuel: nat) -> StepV
    decreases fuel, 3int, 0int,
{
    if raw.len() % 2 != 0 {
        (Err(ErrV::SyntaxError), st)
    } else {
        s_let_pairs(raw, 0, st, fuel)
    }
}

/// Walk the `let` pairs from position `i`: each key must be an identifier
/// node; its expression is evaluated in the current state and the result
/// bound in the innermost frame. The first error stops the walk; when all
/// pairs are bound the result is `Empty`.
pub open spec fn s_let_pairs(raw: Seq<NodeV>, i: int, st: StackV, fuel: nat) -> StepV
    decreases fuel, 2int, raw.len() - i,
{
    if fuel == 0 {
        (Err(ErrV::Runtime), st)
    } else if i < 0 || i + 1 >= raw.len() {
        (Ok(DataV::Empty), st)
    } else {
        match raw[i] {
            NodeV::Identifier(x) => {
                let (r, st1) = s_eval(raw[i + 1], st, (fuel - 1) as nat);
                match r {
                    Err(e) => (Err(e), st1),
                    Ok(v) => s_let_pairs(raw, i + 2, bind_top(st1, x, v), fuel),
                }
            },
            _ => (Err(ErrV::TypeError), st),
        }
    }
}

/// `do`: at least one argument; evaluate each in order and return the last
/// result. The first error stops the walk.
pub open spec fn s_do(raw: Seq<NodeV>, st: StackV, fuel: nat) -> StepV
    decreases fuel, 3int, 0int,
{
    if raw.len() == 0 {
        (Err(ErrV::SyntaxError), st)
    } else {
        s_do_seq(raw, 0, st, fuel)
    }
}

/// Evaluate the `do` arguments from position `i` on; the last result wins.
pub open spec fn s_do_seq(raw: Seq<NodeV>, i: int, st: StackV, fuel: nat) -> StepV
    decreases fuel, 2int, raw.len() - i,
{
    if fuel == 0 {
        (Err(ErrV::Runtime), st)
    } else {
        let (r, st1) = s_eval(raw[i], st, (fuel - 1) as nat);
        if i >= raw.len() - 1 {
            (r, st1)
        } else {
            match r {
                Err(e) => (Err(e), st1),
                Ok(_) => s_do_seq(raw, i + 1, st1, fuel),
            }
        }
    }
}

/// `if`: exactly three arguments. The condition is evaluated; exactly one
/// branch is evaluated after it, chosen by truthiness.
pub open spec fn s_if(raw: Seq<NodeV>, st: StackV, fuel: nat) -> StepV
    decreases fuel, 3int, 0int,
{
    if raw.len() != 3 {
        (Err(ErrV::SyntaxError), st)
    } else if fuel == 0 {
        (Err(ErrV::Runtime), st)
    } else {
        let (c, st1) = s_eval(raw[0], st, (fuel - 1) as nat);
        match c {
            Err(e) => (Err(e), st1),
            Ok(v) => if s_truthy(v) {
                s_eval(raw[1], st1, (fuel - 1) as nat)
            } else {
                s_eval(raw[2], st1, (fuel - 1) as nat)
            },
        }
    }
}

/// `unquote`: evaluate the first argument; if the result is a quote,
/// evaluate the captured node and return that result; otherwise the value
/// is not a quote.
pub open spec fn s_unquote(raw: Seq<NodeV>, st: StackV, fuel: nat) -> StepV
    decreases fuel, 3int, 0int,
{
    if raw.len() == 0 {
        (Err(ErrV::SyntaxError), st)
    } else if fuel == 0 {
        (Err(ErrV::Runtime), st)
    } else {
        let (r, st1) = s_eval(raw[0], st, (fuel - 1) as nat);
        match r {
            Err(e) => (Err(e), st1),
            Ok(v) => match v {
                DataV::Quote(n) => s_eval(n, st1, (fuel - 1) as nat),
                _ => (Err(ErrV::TypeError), st1),
            },
        }
    }
}

/// `debug`: evaluate each argument in order and record the value in the
/// state's output; the driver prints what was recorded. Returns `Empty`.
pub open spec fn s_debug(raw: Seq<NodeV>, i: int, st: StackV, fuel: nat) -> StepV
    decreases fuel, 2int, raw.len() - i,
{
    if fuel == 0 {
        (Err(ErrV::Runtime), st)
    } else if i < 0 || i >= raw.len() {
        (Ok(DataV::Empty), st)
    } else {
        let (r, st1) = s_eval(raw[i], st, (fuel - 1) as nat);
        match r {
            Err(e) => (Err(e), st1),
            Ok(v) => s_debug(raw, i + 1, StackV { out: st1.out.push(v), ..st1 }, fuel),
        }
    }
}

/// Evaluate two operand nodes in order; the first error stops.
pub open spec fn s_eval2(a: NodeV, b: NodeV, st: StackV, fuel: nat) -> (
    Result<(DataV, DataV), ErrV>,
    StackV,
)
    decreases fuel, 2int, 0int,
{
    if fuel == 0 {
        (Err(ErrV::Runtime), st)
    } else {
        let (ra, st1) = s_eval(a, st, (fuel - 1) as nat);
        match ra {
            Err(e) => (Err(e), st1),
            Ok(va) => {
                let (rb, st2) = s_eval(b, st1, (fuel - 1) as nat);
                match rb {
                    Err(e) => (Err(e), st2),
                    Ok(vb) => (Ok((va, vb)), st2),
                }
            },
        }
    }
}

/// An arithmetic intrinsic: exactly two arguments, both of which must
/// evaluate to integers; the result is `s_arith_ints` of the two.
pub open spec fn s_arith(op: ArithOp, raw: Seq<NodeV>, st: StackV, fuel: nat) -> StepV
    decreases fuel, 3int, 0int,
{
    if raw.len() != 2 {
        (Err(ErrV::SyntaxError), st)
    } else {
        let (r, st1) = s_eval2(raw[0], raw[1], st, fuel);
        match r {
            Err(e) => (Err(e), st1),
            Ok(vs) => match vs {
                (DataV::Int(a), DataV::Int(b)) => (s_arith_ints(op, a, b), st1),
                _ => (Err(ErrV::TypeError), st1),
            },
        }
    }
}

/// `=`: exactly two arguments; evaluate both and compare by value
/// equality. `Int(1)` when equal, `Int(0)` when not.
pub open spec fn s_eqform(raw: Seq<NodeV>, st: StackV, fuel: nat) -> StepV
    decreases fuel, 3int, 0int,
{
    if raw.len() != 2 {
        (Err(ErrV::SyntaxError), st)
    } else {
        let (r, st1) = s_eval2(raw[0], raw[1], st, fuel);
        match r {
            Err(e) => (Err(e), st1),
            Ok(vs) => (Ok(DataV::Int(if vs.0 == vs.1 { 1 } else { 0 })), st1),
        }
    }
}

/// `!=`: exactly two arguments; the complement of `=`.
pub open spec fn s_neform(raw: Seq<NodeV>, st: StackV, fuel: nat) -> StepV
    decreases fuel, 3int, 0int,
{
    if raw.len() != 2 {
        (Err(ErrV::SyntaxError), st)
    } else {
        let (r, st1) = s_eval2(raw[0], raw[1], st, fuel);
        match r {
            Err(e) => (Err(e), st1),
            Ok(vs) => (Ok(DataV::Int(if vs.0 == vs.1 { 0 } else { 1 })), st1),
        }
    }
}

/// The base frame as the runtime constructor populates it: every intrinsic
/// under its surface name.
pub open spec fn initial_env() -> FrameV {
    Map::empty()
        .insert("let"@, DataV::Intrinsic("let"@))
        .insert("quote"@, DataV::Intrinsic("quote"@))
        .insert("unquote"@, DataV::Intrinsic("unquote"@))
        .insert("do"@, DataV::Intrinsic("do"@))
        .insert("if"@, DataV::Intrinsic("if"@))
        .insert("fn"@, DataV::Intrinsic("fn"@))
        .insert("debug"@, DataV::Intrinsic("debug"@))
        .insert("+"@, DataV::Intrinsic("+"@))
        .insert("-"@, DataV::Intrinsic("-"@))
        .insert("*"@, DataV::Intrinsic("*"@))
        .insert("/"@, DataV::Intrinsic("/"@))
        .insert("mod"@, DataV::Intrinsic("mod"@))
        .insert("="@, DataV::Intrinsic("="@))
        .insert("!="@, DataV::Intrinsic("!="@))
}

/// Frame balance: evaluating any node leaves the number of scope frames
/// unchanged, whether it succeeds or fails. Frames pushed for a function
/// application are popped again on every exit path.
pub proof fn lemma_eval_frame_balance(n: NodeV, st: StackV, fuel: nat)
    requires
        st.frames.len() > 0,
    ensures
        s_eval(n, st, fuel).1.frames.len() == st.frames.len(),
    decreases fuel, 6int, 0int,
{
    if fuel != 0 {
        match n {
            NodeV::List(items) => if items.len() != 0 {
                lemma_eval_frame_balance(items[0], st, (fuel - 1) as nat);
                let (hr, st1) = s_eval(items[0], st, (fuel - 1) as nat);
                if hr is Ok {
                    lemma_apply_frame_balance(hr->Ok_0, items.drop_first(), st1, fuel);
                }
            },
            _ => {},
        }
    }
}

/// Frame balance for an application: whether the callable is an intrinsic
/// or a user function, and whether argument evaluation, body evaluation or
/// the shape check fails, the frame count afterwards equals the frame
/// count before.
pub proof fn lemma_apply_frame_balance(c: DataV, raw: Seq<NodeV>, st: StackV, fuel: nat)
    requires
        st.frames.len() > 0,
    ensures
        s_apply(c, raw, st, fuel).1.frames.len() == st.frames.len(),
    decreases fuel, 5int, 0int,
{
    if fuel != 0 {
        match c {
            DataV::Intrinsic(name) => lemma_dispatch_frame_balance(name, raw, st, fuel),
            DataV::Function(params, body) => if raw.len() == params.len() {
                lemma_bind_frame_balance(params, raw, 0, push_frame(st), fuel);
                let (br, st1) = s_bind(params, raw, 0, push_frame(st), fuel);
                if br is Ok {
                    lemma_eval_frame_balance(body, st1, (fuel - 1) as nat);
                }
            },
            _ => {},
        }
    }
}

proof fn lemma_bind_frame_balance(
    params: Seq<Seq<char>>,
    raw: Seq<NodeV>,
    i: int,
    st: StackV,
    fuel: nat,
)
    requires
        st.frames.len() > 0,
    ensures
        s_bind(params, raw, i, st, fuel).1.frames.len() == st.frames.len(),
    decreases fuel, 2int, raw.len() - i,
{
    if fuel != 0 && 0 <= i < raw.len() {
        lemma_eval_frame_balance(raw[i], st, (fuel - 1) as nat);
        let (r, st1) = s_eval(raw[i], st, (fuel - 1) as nat);
        if r is Ok {
            lemma_bind_frame_balance(
                params,
                raw,
                i + 1,
                bind_top(st1, params[i], r->Ok_0),
                fuel,
            );
        }
    }
}

proof fn lemma_dispatch_frame_balance(name: Seq<char>, raw: Seq<NodeV>, st: StackV, fuel: nat)
    requires
        st.frames.len() > 0,
    ensures
        s_dispatch(name, raw, st, fuel).1.frames.len() == st.frames.len(),
    decreases fuel, 4int, 0int,
{
    if name == "let"@ {
        if raw.len() % 2 == 0 {
            lemma_let_pairs_frame_balance(raw, 0, st, fuel);
        }
    } else if name == "do"@ {
        if raw.len() != 0 {
            lemma_do_seq_frame_balance(raw, 0, st, fuel);
        }
    } else if name == "if"@ {
        if raw.len() == 3 && fuel != 0 {
            lemma_eval_frame_balance(raw[0], st, (fuel - 1) as nat);
            let (c, st1) = s_eval(raw[0], st, (fuel - 1) as nat);
            if c is Ok {
                lemma_eval_frame_balance(raw[1], st1, (fuel - 1) as nat);
                lemma_eval_frame_balance(raw[2], st1, (fuel - 1) as nat);
            }
        }
    } else if name == "unquote"@ {
        if raw.len() != 0 && fuel != 0 {
            lemma_eval_frame_balance(raw[0], st, (fuel - 1) as nat);
            let (r, st1) = s_eval(raw[0], st, (fuel - 1) as nat);
            if r is Ok && r->Ok_0 is Quote {
                lemma_eval_frame_balance(r->Ok_0->Quote_0, st1, (fuel - 1) as nat);
            }
        }
    } else if name == "debug"@ {
        lemma_debug_frame_balance(raw, 0, st, fuel);
    } else {
        if raw.len() == 2 {
            lemma_eval2_frame_balance(raw[0], raw[1], st, fuel);
        }
    }
}

proof fn lemma_let_pairs_frame_balance(raw: Seq<NodeV>, i: int, st: StackV, fuel: nat)
    requires
        st.frames.len() > 0,
    ensures
        s_let_pairs(raw, i, st, fuel).1.frames.len() == st.frames.len(),
    decreases fuel, 2int, raw.len() - i,
{
    if fuel != 0 && 0 <= i && i + 1 < raw.len() {
        if raw[i] is Identifier {
            lemma_eval_frame_balance(raw[i + 1], st, (fuel - 1) as nat);
            let (r, st1) = s_eval(raw[i + 1], st, (fuel - 1) as nat);
            if r is Ok {
                lemma_let_pairs_frame_balance(
                    raw,
                    i + 2,
                    bind_top(st1, raw[i]->Identifier_0, r->Ok_0),
                    fuel,
                );
            }
        }
    }
}

proof fn lemma_do_seq_frame_balance(raw: Seq<NodeV>, i: int, st: StackV, fuel: nat)
    requires
        st.frames.len() > 0,
    ensures
        s_do_seq(raw, i, st, fuel).1.frames.len() == st.frames.len(),
    decreases fuel, 2int, raw.len() - i,
{
    if fuel != 0 {
        lemma_eval_frame_balance(raw[i], st, (fuel - 1) as nat);
        let (r, st1) = s_eval(raw[i], st, (fuel - 1) as nat);
        if i < raw.len() - 1 && r is Ok {
            lemma_do_seq_frame_balance(raw, i + 1, st1, fuel);
        }
    }
}

proof fn lemma_debug_frame_balance(raw: Seq<NodeV>, i: int, st: StackV, fuel: nat)
    requires
        st.frames.len() > 0,
    ensures
        s_debug(raw, i, st, fuel).1.frames.len() == st.frames.len(),
    decreases fuel, 2int, raw.len() - i,
{
    if fuel != 0 && 0 <= i < raw.len() {
        lemma_eval_frame_balance(raw[i], st, (fuel - 1) as nat);
        let (r, st1) = s_eval(raw[i], st, (fuel - 1) as nat);
        if r is Ok {
            lemma_debug_frame_balance(
                raw,
                i + 1,
                StackV { out: st1.out.push(r->Ok_0), ..st1 },
                fuel,
            );
        }
    }
}

proof fn lemma_eval2_frame_balance(a: NodeV, b: NodeV, st: StackV, fuel: nat)
    requires
        st.frames.len() > 0,
    ensures
        s_eval2(a, b, st, fuel).1.frames.len() == st.frames.len(),
    decreases fuel, 2int, 0int,
{
    if fuel != 0 {
        lemma_eval_frame_balance(a, st, (fuel - 1) as nat);
        let (ra, st1) = s_eval(a, st, (fuel - 1) as nat);
        if ra is Ok {
            lemma_eval_frame_balance(b, st1, (fuel - 1) as nat);
        }
    }
}

/// Shadowing: a name bound in a freshly entered frame is what lookup
/// finds, and dropping that frame restores exactly the previous view —
/// the outer binding, or absence, as before.
pub proof fn lemma_lookup_shadowing(frames: Seq<FrameV>, inner: FrameV, name: Seq<char>)
    requires
        inner.contains_key(name),
    ensures
        s_lookup(frames.push(inner), name) == Some(inner[name]),
        frames.push(inner).drop_last() == frames,
{
    assert(frames.push(inner).drop_last() =~= frames);
}

/// Intrinsic values are identified by name alone: two intrinsics are equal
/// exactly when their names are; there is nothing else to a value of this
/// kind.
pub proof fn lemma_intrinsic_equality(n1: Seq<char>, n2: Seq<char>)
    ensures
        (DataV::Intrinsic(n1) == DataV::Intrinsic(n2)) <==> n1 == n2,
{
}

/// Function values are equal exactly when their parameter-name sequences
/// and bodies are structurally equal.
pub proof fn lemma_function_equality(
    p1: Seq<Seq<char>>,
    b1: NodeV,
    p2: Seq<Seq<char>>,
    b2: NodeV,
)
    ensures
        (DataV::Function(p1, b1) == DataV::Function(p2, b2)) <==> (p1 == p2 && b1 == b2),
{
}

} // verus!
