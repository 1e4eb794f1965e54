//! The executable evaluator: scope stack, runtime values, intrinsics.

use vstd::prelude::*;

use crate::ast::{list_view, lemma_list_view, nodes_view, Node, NodeV};
use crate::error::{ErrV, LispError};
use crate::semantics::{
    bind_top, initial_env, pop_frame, push_frame, s_apply, s_arith, s_bind, s_debug,
    s_dispatch, s_do, s_do_seq, s_eqform, s_eval, s_eval2, s_fnform, s_if, s_let, s_let_pairs,
    s_lookup, s_neform, s_quoteform, s_truthy, s_unquote, ArithOp, DataV, FrameV, StackV,
};

verus! {

use vstd::math::abs;

broadcast use vstd::std_specs::vec::group_vec_axioms, vstd::seq::group_seq_axioms;

/// One scope frame: a mapping from names to values, last binding wins.
pub struct Namespace {
    entries: Vec<(String, Data)>,
}

/// The map a run of entries denotes: later entries shadow earlier ones.
spec fn assoc_view(s: Seq<(String, Data)>) -> FrameV
    decreases s.len(),
{
    if s.len() == 0 {
        Map::empty()
    } else {
        assoc_view(s.drop_last()).insert(s.last().0@, s.last().1@)
    }
}

impl View for Namespace {
    type V = FrameV;

    closed spec fn view(&self) -> FrameV {
        assoc_view(self.entries@)
    }
}

impl Namespace {
    /// An empty frame.
    pub fn new() -> (r: Namespace)
        ensures
            r@ == FrameV::empty(),
    {
        Namespace { entries: Vec::new() }
    }

    /// Bind `name` to `value`, shadowing any earlier binding of the name
    /// in this frame.
    pub fn insert(&mut self, name: String, value: Data)
        ensures
            final(self)@ == old(self)@.insert(name@, value@),
    {
        let ghost old_entries = self.entries@;
        self.entries.push((name, value));
        proof {
            assert(self.entries@.drop_last() =~= old_entries);
        }
    }

    /// Look the name up in this frame alone.
    pub fn get(&self, name: &str) -> (r: Option<&Data>)
        ensures
            match r {
                Some(d) => self@.contains_key(name@) && d@ == self@[name@],
                None => !self@.contains_key(name@),
            },
    {
        let key: String = name.to_owned();
        let mut i: usize = self.entries.len();
        while i > 0
            invariant
                i <= self.entries@.len(),
                key@ == name@,
                forall|j: int| i <= j < self.entries@.len() ==> self.entries@[j].0@ != name@,
            decreases i,
        {
            i = i - 1;
            if self.entries[i].0 == key {
                proof {
                    lemma_assoc_found(self.entries@, name@, i as int);
                }
                return Some(&self.entries[i].1);
            }
        }
        proof {
            lemma_assoc_absent(self.entries@, name@);
        }
        None
    }
}

proof fn lemma_assoc_found(s: Seq<(String, Data)>, k: Seq<char>, j: int)
    requires
        0 <= j < s.len(),
        s[j].0@ == k,
        forall|j2: int| j < j2 < s.len() ==> s[j2].0@ != k,
    ensures
        assoc_view(s).contains_key(k),
        assoc_view(s)[k] == s[j].1@,
    decreases s.len(),
{
    if j == s.len() - 1 {
    } else {
        assert(forall|j2: int| j < j2 < s.drop_last().len() ==> s.drop_last()[j2].0@ != k);
        lemma_assoc_found(s.drop_last(), k, j);
    }
}

proof fn lemma_assoc_absent(s: Seq<(String, Data)>, k: Seq<char>)
    requires
        forall|j: int| 0 <= j < s.len() ==> s[j].0@ != k,
    ensures
        !assoc_view(s).contains_key(k),
    decreases s.len(),
{
    if s.len() > 0 {
        lemma_assoc_absent(s.drop_last(), k);
    }
}

/// A runtime value.
#[derive(Debug)]
pub enum Data {
    /// A captured, unevaluated syntax node.
    Quote(Node),
    Int(i32),
    Str(String),
    /// A native callable. Identity — equality and debug output alike — is
    /// the name alone; the behaviour behind a name is fixed by the
    /// evaluator's dispatch.
    Intrinsic(String),
    /// A user-defined callable: parameter names and unevaluated body.
    Function(Vec<String>, Node),
    /// Unit result, as returned by `let` or `debug`.
    Empty,
}

/// The abstract form of a sequence of names, elementwise.
pub open spec fn names_view(s: Seq<String>) -> Seq<Seq<char>> {
    Seq::new(s.len(), |i: int| s[i]@)
}

impl View for Data {
    type V = DataV;

    open spec fn view(&self) -> DataV {
        match self {
            Data::Quote(n) => DataV::Quote(n@),
            Data::Int(i) => DataV::Int(*i),
            Data::Str(s) => DataV::Str(s@),
            Data::Intrinsic(name) => DataV::Intrinsic(name@),
            Data::Function(params, body) => DataV::Function(names_view(params@), body@),
            Data::Empty => DataV::Empty,
        }
    }
}


/// The abstract form of a sequence of values, elementwise.
pub open spec fn datas_view(s: Seq<Data>) -> Seq<DataV> {
    Seq::new(s.len(), |i: int| s[i]@)
}

/// The abstract form of an evaluation result.
pub open spec fn res_view(r: Result<Data, LispError>) -> Result<DataV, ErrV> {
    match r {
        Ok(d) => Ok(d@),
        Err(e) => Err(e@),
    }
}

/// The executable outcome `(r, stv)` is exactly the abstract step `s`.
pub open spec fn step_matches(s: (Result<DataV, ErrV>, StackV), r: Result<Data, LispError>, stv: StackV) -> bool {
    res_view(r) == s.0 && stv == s.1
}

/// The scope stack: the ordered scope frames (index 0 the base frame,
/// created once and never removed), and the values the `debug` intrinsic
/// has recorded for the driver to print.
pub struct NSStack {
    spaces: Vec<Namespace>,
    debug_out: Vec<Data>,
}

impl View for NSStack {
    type V = StackV;

    closed spec fn view(&self) -> StackV {
        StackV {
            frames: Seq::new(self.spaces@.len(), |i: int| self.spaces@[i]@),
            out: datas_view(self.debug_out@),
        }
    }
}

impl NSStack {
    /// The stack invariant: the base frame is always present.
    pub open spec fn wf(&self) -> bool {
        self@.frames.len() > 0
    }

    /// A stack with one empty frame, the base, and nothing recorded.
    pub fn new() -> (r: NSStack)
        ensures
            r@.frames.len() == 1,
            r@.frames[0] == FrameV::empty(),
            r@.out == Seq::<DataV>::empty(),
            r.wf(),
    {
        let mut spaces: Vec<Namespace> = Vec::new();
        spaces.push(Namespace::new());
        NSStack { spaces, debug_out: Vec::new() }
    }

    /// Scan the frames innermost-first for `name` and hand out the first
    /// match; an inner binding shadows an outer one. Does not mutate.
    pub fn lookup(&self, name: &str) -> (r: Result<&Data, LispError>)
        ensures
            match s_lookup(self@.frames, name@) {
                Some(d) => r matches Ok(v) && v@ == d,
                None => r matches Err(e) && e@ == ErrV::VariableNotFound(name@),
            },
    {
        let ghost frames = self@.frames;
        let mut i: usize = self.spaces.len();
        while i > 0
            invariant
                i <= self.spaces@.len(),
                frames == self@.frames,
                forall|j: int| i <= j < frames.len() ==> !frames[j].contains_key(name@),
            decreases i,
        {
            i = i - 1;
            match self.spaces[i].get(name) {
                Some(d) => {
                    proof {
                        lemma_lookup_skip(frames, name@, i + 1);
                        assert(frames.take(i + 1).last() == frames[i as int]);
                        assert(frames.take(i + 1).drop_last() =~= frames.take(i as int));
                    }
                    return Ok(d);
                },
                None => {},
            }
        }
        proof {
            lemma_lookup_skip(frames, name@, 0);
        }
        Err(LispError::VariableNotFound(name.to_owned()))
    }

    /// Overwrite the innermost binding of `name` with `value`; an error if
    /// no frame binds the name. The in-place update counterpart of
    /// `lookup`.
    pub fn lookup_mut(&mut self, name: &str, value: Data) -> (r: Result<(), LispError>)
        ensures
            match s_lookup(old(self)@.frames, name@) {
                Some(_) => r is Ok && final(self)@.frames == update_innermost(
                    old(self)@.frames,
                    name@,
                    value@,
                ),
                None => (r matches Err(e) && e@ == ErrV::VariableNotFound(name@)
                    && *final(self) == *old(self)),
            },
            final(self)@.out == old(self)@.out,
            final(self)@.frames.len() == old(self)@.frames.len(),
    {
        let ghost s0 = *self;
        let ghost frames = self@.frames;
        let mut idx: usize = 0;
        let mut found: bool = false;
        let mut i: usize = self.spaces.len();
        while i > 0
            invariant
                i <= self.spaces@.len(),
                *self == s0,
                frames == self@.frames,
                !found ==> (forall|j: int| i <= j < frames.len() ==> !frames[j].contains_key(
                    name@,
                )),
                found ==> (idx < frames.len() && frames[idx as int].contains_key(name@)
                    && (forall|j: int| idx < j < frames.len() ==> !frames[j].contains_key(
                        name@,
                    ))),
            decreases i,
        {
            i = i - 1;
            if !found {
                match self.spaces[i].get(name) {
                    Some(_) => {
                        found = true;
                        idx = i;
                    },
                    None => {},
                }
            }
        }
        if found {
            proof {
                lemma_lookup_skip(frames, name@, idx + 1);
                assert(frames.take(idx + 1).last() == frames[idx as int]);
                lemma_update_innermost(frames, name@, value@, idx as int);
            }
            let ns = &mut self.spaces[idx];
            ns.insert(name.to_owned(), value);
            proof {
                assert(final(self)@.frames =~= frames.update(
                    idx as int,
                    frames[idx as int].insert(name@, value@),
                ));
                assert(final(self)@.out =~= old(self)@.out);
            }
            Ok(())
        } else {
            proof {
                lemma_lookup_skip(frames, name@, 0);
            }
            Err(LispError::VariableNotFound(name.to_owned()))
        }
    }

    /// Push an empty frame.
    pub fn enter_scope(&mut self)
        ensures
            final(self)@ == push_frame(old(self)@),
            final(self).wf(),
    {
        self.spaces.push(Namespace::new());
        proof {
            assert(final(self)@.frames =~= push_frame(old(self)@).frames);
            assert(final(self)@.out =~= push_frame(old(self)@).out);
            assert(final(self)@ == push_frame(old(self)@));
        }
    }

    /// Pop the innermost frame. Pairing with `enter_scope` is the
    /// caller's responsibility; removing the base frame is a programming
    /// error, ruled out here by precondition.
    pub fn exit_scope(&mut self)
        requires
            old(self)@.frames.len() >= 2,
        ensures
            final(self)@ == pop_frame(old(self)@),
            final(self).wf(),
    {
        let _ = self.spaces.pop();
        proof {
            assert(final(self)@.frames =~= pop_frame(old(self)@).frames);
            assert(final(self)@.out =~= pop_frame(old(self)@).out);
            assert(final(self)@ == pop_frame(old(self)@));
        }
    }

    /// Borrow the innermost frame mutably; binding forms write into the
    /// current frame only, never into outer ones.
    pub fn top(&mut self) -> (r: &mut Namespace)
        requires
            old(self).wf(),
        ensures
            r@ == old(self)@.frames.last(),
            final(self)@.frames == old(self)@.frames.update(
                old(self)@.frames.len() - 1,
                final(r)@,
            ),
            final(self)@.out == old(self)@.out,
    {
        let n = self.spaces.len() - 1;
        proof {
            let spaces0 = self.spaces@;
            assert forall|ns2: Namespace|
                Seq::new(spaces0.update(n as int, ns2).len(), |i: int| spaces0.update(n as int, ns2)[i]@)
                    =~= Seq::new(spaces0.len(), |i: int| spaces0[i]@).update(n as int, ns2@) by {
            }
        }
        &mut self.spaces[n]
    }

    /// Bind `name` to `value` in the innermost frame.
    fn define(&mut self, name: String, value: Data)
        requires
            old(self).wf(),
        ensures
            final(self)@ == bind_top(old(self)@, name@, value@),
            final(self).wf(),
    {
        let n = self.spaces.len() - 1;
        let ns = &mut self.spaces[n];
        ns.insert(name, value);
        proof {
            assert(final(self)@.frames =~= bind_top(old(self)@, name@, value@).frames);
            assert(final(self)@.out =~= bind_top(old(self)@, name@, value@).out);
            assert(final(self)@ == bind_top(old(self)@, name@, value@));
        }
    }

    /// Record a value evaluated by `debug`; the driver prints what was
    /// recorded.
    fn record(&mut self, value: Data)
        ensures
            final(self)@ == (StackV { out: old(self)@.out.push(value@), ..old(self)@ }),
    {
        self.debug_out.push(value);
        proof {
            assert(final(self)@.frames =~= old(self)@.frames);
            assert(final(self)@.out =~= old(self)@.out.push(value@));
            assert(final(self)@ == (StackV { out: old(self)@.out.push(value@), ..old(self)@ }));
        }
    }

    /// Hand the recorded `debug` values over, oldest first, and clear the
    /// record.
    pub fn take_output(&mut self) -> (r: Vec<Data>)
        ensures
            datas_view(r@) == old(self)@.out,
            final(self)@.frames == old(self)@.frames,
            final(self)@.out == Seq::<DataV>::empty(),
    {
        let mut v: Vec<Data> = Vec::new();
        core::mem::swap(&mut self.debug_out, &mut v);
        proof {
            assert(final(self)@.frames =~= old(self)@.frames);
            assert(final(self)@.out =~= Seq::<DataV>::empty());
        }
        v
    }

    /// The number of live scope frames, the base frame included.
    pub fn depth(&self) -> (n: usize)
        ensures
            n == self@.frames.len(),
    {
        self.spaces.len()
    }

    /// Register a native callable under `name` in the base frame
    /// exclusively: an intrinsic can be shadowed by an inner user binding,
    /// but never replaced by one.
    pub fn register_intrinsic(&mut self, name: &str) -> (r: Result<(), LispError>)
        ensures
            old(self)@.frames.len() == 0 ==> (r matches Err(e) && e@ == ErrV::StackEmpty
                && *final(self) == *old(self)),
            old(self)@.frames.len() > 0 ==> r is Ok
                && final(self)@.frames == old(self)@.frames.update(
                    0,
                    old(self)@.frames[0].insert(name@, DataV::Intrinsic(name@)),
                )
                && final(self)@.out == old(self)@.out,
    {
        if self.spaces.len() == 0 {
            return Err(LispError::StackEmpty);
        }
        let ns = &mut self.spaces[0];
        ns.insert(name.to_owned(), Data::Intrinsic(name.to_owned()));
        proof {
            assert(final(self)@.frames =~= old(self)@.frames.update(
                0,
                old(self)@.frames[0].insert(name@, DataV::Intrinsic(name@)),
            ));
            assert(final(self)@.out =~= old(self)@.out);
        }
        Ok(())
    }
}

/// The frames after overwriting the innermost binding of `name`; frames
/// above the binding are unchanged, and so is everything below it.
pub open spec fn update_innermost(frames: Seq<FrameV>, name: Seq<char>, v: DataV) -> Seq<FrameV>
    decreases frames.len(),
{
    if frames.len() == 0 {
        frames
    } else if frames.last().contains_key(name) {
        frames.update(frames.len() - 1, frames.last().insert(name, v))
    } else {
        update_innermost(frames.drop_last(), name, v).push(frames.last())
    }
}

proof fn lemma_update_innermost(frames: Seq<FrameV>, name: Seq<char>, v: DataV, i: int)
    requires
        0 <= i < frames.len(),
        frames[i].contains_key(name),
        forall|j: int| i < j < frames.len() ==> !frames[j].contains_key(name),
    ensures
        update_innermost(frames, name, v) == frames.update(i, frames[i].insert(name, v)),
    decreases frames.len(),
{
    if i == frames.len() - 1 {
    } else {
        let d = frames.drop_last();
        assert(forall|j: int| i < j < d.len() ==> !d[j].contains_key(name));
        lemma_update_innermost(d, name, v, i);
        assert(update_innermost(frames, name, v) =~= frames.update(i, frames[i].insert(name, v)));
    }
}

/// Skipping frames that do not bind the name leaves the lookup result
/// unchanged.
proof fn lemma_lookup_skip(frames: Seq<FrameV>, name: Seq<char>, i: int)
    requires
        0 <= i <= frames.len(),
        forall|j: int| i <= j < frames.len() ==> !frames[j].contains_key(name),
    ensures
        s_lookup(frames, name) == s_lookup(frames.take(i), name),
    decreases frames.len(),
{
    if i == frames.len() {
        assert(frames.take(i) =~= frames);
    } else {
        assert(!frames.last().contains_key(name));
        assert(frames.drop_last().take(i) =~= frames.take(i));
        lemma_lookup_skip(frames.drop_last(), name, i);
    }
}


impl Data {
    /// Structural copy: the copy has the same abstract form as the original.
    pub fn duplicate(&self) -> (r: Data)
        ensures
            r@ == self@,
    {
        match self {
            Data::Quote(n) => Data::Quote(n.duplicate()),
            Data::Int(i) => Data::Int(*i),
            Data::Str(s) => Data::Str(s.clone()),
            Data::Intrinsic(name) => Data::Intrinsic(name.clone()),
            Data::Function(params, body) => {
                let ps = params.clone();
                let r = Data::Function(ps, body.duplicate());
                proof {
                    assert(names_view(r->Function_0@) =~= names_view(params@));
                }
                r
            },
            Data::Empty => Data::Empty,
        }
    }

    /// Value equality, decided as equality of the abstract forms: quotes
    /// compare their captured nodes structurally, intrinsics their names
    /// alone, functions their parameter names and bodies; different kinds
    /// of value are never equal.
    pub fn value_eq(&self, other: &Data) -> (r: bool)
        ensures
            r == (self@ == other@),
    {
        match (self, other) {
            (Data::Quote(a), Data::Quote(b)) => a.same_as(b),
            (Data::Int(a), Data::Int(b)) => *a == *b,
            (Data::Str(a), Data::Str(b)) => *a == *b,
            (Data::Intrinsic(a), Data::Intrinsic(b)) => *a == *b,
            (Data::Function(p1, b1), Data::Function(p2, b2)) => {
                if p1.len() != p2.len() {
                    proof {
                        assert(self@ != other@) by {
                            if self@ == other@ {
                                assert(names_view(p1@).len() == names_view(p2@).len());
                            }
                        }
                    }
                    false
                } else {
                    let mut i: usize = 0;
                    let mut same: bool = true;
                    while i < p1.len()
                        invariant
                            i <= p1.len(),
                            p1@.len() == p2@.len(),
                            same ==> (forall|j: int| 0 <= j < i ==> p1@[j]@ == p2@[j]@),
                            !same ==> (exists|j: int|
                                0 <= j < p1@.len() && p1@[j]@ != p2@[j]@),
                        decreases p1@.len() - i,
                    {
                        if !(p1[i] == p2[i]) {
                            proof {
                                assert(p1@[i as int]@ != p2@[i as int]@);
                            }
                            same = false;
                            i = p1.len();
                        } else {
                            i = i + 1;
                        }
                    }
                    let r = if same {
                        b1.same_as(b2)
                    } else {
                        false
                    };
                    proof {
                        if same {
                            assert(names_view(p1@) =~= names_view(p2@));
                            if b1@ == b2@ {
                                assert(self@ == other@);
                            } else {
                                assert(self@ != other@) by {
                                    if self@ == other@ {
                                        assert(self@->Function_1 == other@->Function_1);
                                    }
                                }
                            }
                        } else {
                            assert(self@ != other@) by {
                                let j = choose|j: int|
                                    0 <= j < p1@.len() && p1@[j]@ != p2@[j]@;
                                if self@ == other@ {
                                    assert(names_view(p1@)[j] == names_view(p2@)[j]);
                                }
                            }
                        }
                    }
                    r
                }
            },
            (Data::Empty, Data::Empty) => true,
            _ => {
                proof {
                    assert(self@ != other@);
                }
                false
            },
        }
    }

    /// The truthiness rule applied by `if`.
    pub fn is_truthy(&self) -> (r: bool)
        ensures
            r == s_truthy(self@),
    {
        match self {
            Data::Quote(q) => match q {
                Node::Identifier(s) => {
                    let t: String = "true".to_owned();
                    let r = *s == t;
                    proof {
                        assert(self@ == DataV::Quote(NodeV::Identifier(s@)));
                        if !r {
                            assert(q@ != NodeV::Identifier("true"@)) by {
                                if q@ == NodeV::Identifier("true"@) {
                                    assert(s@ == "true"@);
                                }
                            }
                        }
                    }
                    r
                },
                _ => {
                    proof {
                        assert(q@ != NodeV::Identifier("true"@));
                    }
                    false
                },
            },
            Data::Int(i) => *i != 0,
            Data::Str(s) => !s.as_str().is_empty(),
            Data::Intrinsic(_) => false,
            Data::Function(_, _) => false,
            Data::Empty => false,
        }
    }
}

impl PartialEq for Node {
    /// Structural equality of syntax nodes.
    fn eq(&self, other: &Node) -> (r: bool) {
        self.same_as(other)
    }
}

impl vstd::std_specs::cmp::PartialEqSpecImpl for Node {
    open spec fn obeys_eq_spec() -> bool {
        true
    }

    open spec fn eq_spec(&self, other: &Node) -> bool {
        self@ == other@
    }
}

impl PartialEq for Data {
    /// Value equality as the `=` intrinsic decides it.
    fn eq(&self, other: &Data) -> (r: bool) {
        self.value_eq(other)
    }
}

impl vstd::std_specs::cmp::PartialEqSpecImpl for Data {
    open spec fn obeys_eq_spec() -> bool {
        true
    }

    open spec fn eq_spec(&self, other: &Data) -> bool {
        self@ == other@
    }
}


/// The depth budget `Runtime::eval` grants one top-level expression:
/// deeper nesting stops with a graceful `Runtime` error instead of
/// exhausting the host stack.
pub const DEFAULT_FUEL: u64 = 512;

impl Node {
    /// Evaluate this node against the scope stack with the default depth
    /// budget. The result and the state afterwards are exactly what the
    /// abstract interpreter `s_eval` says; the number of scope frames is
    /// unchanged whether evaluation succeeds or fails.
    pub fn eval(&self, stack: &mut NSStack) -> (r: Result<Data, LispError>)
        requires
            old(stack).wf(),
        ensures
            step_matches(s_eval(self@, old(stack)@, DEFAULT_FUEL as nat), r, final(stack)@),
            final(stack)@.frames.len() == old(stack)@.frames.len(),
    {
        self.eval_fueled(stack, DEFAULT_FUEL)
    }

    /// Evaluate this node with an explicit depth budget; every nested
    /// evaluation costs one unit.
    pub fn eval_fueled(&self, stack: &mut NSStack, fuel: u64) -> (r: Result<Data, LispError>)
        requires
            old(stack).wf(),
        ensures
            step_matches(s_eval(self@, old(stack)@, fuel as nat), r, final(stack)@),
            final(stack)@.frames.len() == old(stack)@.frames.len(),
        decreases fuel, 6int, 0int,
    {
        if fuel == 0 {
            return Err(LispError::Runtime("evaluation depth limit reached.".to_owned()));
        }
        match self {
            Node::Identifier(x) => match stack.lookup(x.as_str()) {
                Ok(d) => Ok(d.duplicate()),
                Err(e) => Err(e),
            },
            Node::StringLiteral(s) => Ok(Data::Str(s.clone())),
            Node::IntegerLiteral(i) => Ok(Data::Int(*i)),
            Node::Quote(b) => Ok(Data::Quote((**b).duplicate())),
            Node::List(items) => {
                proof {
                    lemma_list_view(items@);
                }
                if items.len() == 0 {
                    return Err(LispError::SyntaxError(
                        "List expression with zero arguments.".to_owned(),
                    ));
                }
                match items[0].eval_fueled(stack, fuel - 1) {
                    Ok(f) => {
                        let rest = vstd::slice::slice_subrange(
                            items.as_slice(),
                            1,
                            items.len(),
                        );
                        proof {
                            assert(nodes_view(rest@) =~= list_view(items@).drop_first());
                        }
                        f.exec(stack, rest, fuel)
                    },
                    Err(e) => Err(e),
                }
            },
        }
    }
}

impl Data {
    /// Apply this value as a callable to raw, unevaluated argument nodes.
    /// An intrinsic decides itself what to evaluate; a user function
    /// checks arity, pushes a fresh frame, evaluates and binds each
    /// argument there in order, evaluates the body, and pops the frame on
    /// every exit path; any other value is not callable.
    pub fn exec(&self, stack: &mut NSStack, params: &[Node], fuel: u64) -> (r: Result<
        Data,
        LispError,
    >)
        requires
            old(stack).wf(),
            fuel >= 1,
        ensures
            step_matches(
                s_apply(self@, nodes_view(params@), old(stack)@, fuel as nat),
                r,
                final(stack)@,
            ),
            final(stack)@.frames.len() == old(stack)@.frames.len(),
        decreases fuel, 5int, 0int,
    {
        match self {
            Data::Intrinsic(name) => dispatch(name, stack, params, fuel),
            Data::Function(argnames, body) => {
                if params.len() != argnames.len() {
                    return Err(LispError::SyntaxError(
                        "Wrong function argument count.".to_owned(),
                    ));
                }
                stack.enter_scope();
                match bind_args(stack, argnames, params, 0, fuel) {
                    Ok(_) => {
                        let r = body.eval_fueled(stack, fuel - 1);
                        stack.exit_scope();
                        r
                    },
                    Err(e) => {
                        stack.exit_scope();
                        Err(e)
                    },
                }
            },
            _ => Err(LispError::TypeError("value is not callable.".to_owned())),
        }
    }
}

/// Evaluate the arguments of a user function from position `i` on,
/// binding each result under the matching parameter name in the freshly
/// pushed innermost frame.
fn bind_args(
    stack: &mut NSStack,
    argnames: &Vec<String>,
    params: &[Node],
    i: usize,
    fuel: u64,
) -> (r: Result<(), LispError>)
    requires
        old(stack).wf(),
        fuel >= 1,
        i <= params@.len(),
        params@.len() == argnames@.len(),
    ensures
        ({
            let s = s_bind(
                names_view(argnames@),
                nodes_view(params@),
                i as int,
                old(stack)@,
                fuel as nat,
            );
            &&& match r {
                Ok(_) => s.0 is Ok,
                Err(e) => s.0 == Err::<(), ErrV>(e@),
            }
            &&& final(stack)@ == s.1
        }),
        final(stack)@.frames.len() == old(stack)@.frames.len(),
    decreases fuel, 2int, params@.len() - i,
{
    if i >= params.len() {
        return Ok(());
    }
    match params[i].eval_fueled(stack, fuel - 1) {
        Ok(v) => {
            stack.define(argnames[i].clone(), v);
            bind_args(stack, argnames, params, i + 1, fuel)
        },
        Err(e) => Err(e),
    }
}

/// Does this string have exactly the given surface name?
fn str_is(name: &String, lit: &str) -> (r: bool)
    ensures
        r == (name@ == lit@),
{
    let t: String = lit.to_owned();
    *name == t
}

/// Dispatch an intrinsic by its registered name. The base frame holds
/// exactly the names this function knows; applying a forged intrinsic
/// value with any other name is a type error.
fn dispatch(name: &String, stack: &mut NSStack, args: &[Node], fuel: u64) -> (r: Result<
    Data,
    LispError,
>)
    requires
        old(stack).wf(),
        fuel >= 1,
    ensures
        step_matches(
            s_dispatch(name@, nodes_view(args@), old(stack)@, fuel as nat),
            r,
            final(stack)@,
        ),
        final(stack)@.frames.len() == old(stack)@.frames.len(),
    decreases fuel, 4int, 0int,
{
    if str_is(name, "let") {
        f_let(stack, args, fuel)
    } else if str_is(name, "do") {
        f_do(stack, args, fuel)
    } else if str_is(name, "if") {
        f_if(stack, args, fuel)
    } else if str_is(name, "fn") {
        f_fn(stack, args)
    } else if str_is(name, "quote") {
        quote(stack, args)
    } else if str_is(name, "unquote") {
        unquote(stack, args, fuel)
    } else if str_is(name, "debug") {
        debug(stack, args, fuel)
    } else if str_is(name, "+") {
        crate::runtime::add(stack, args, fuel)
    } else if str_is(name, "-") {
        crate::runtime::sub(stack, args, fuel)
    } else if str_is(name, "*") {
        crate::runtime::mul(stack, args, fuel)
    } else if str_is(name, "/") {
        div(stack, args, fuel)
    } else if str_is(name, "mod") {
        modul(stack, args, fuel)
    } else if str_is(name, "=") {
        eq(stack, args, fuel)
    } else if str_is(name, "!=") {
        ne(stack, args, fuel)
    } else {
        Err(LispError::TypeError("value is not callable.".to_owned()))
    }
}

/// `let`: an even number of arguments, read as (identifier, expression)
/// pairs; each expression is evaluated in the current frame and bound in
/// the innermost frame. The result is `Empty`.
pub fn f_let(stack: &mut NSStack, args: &[Node], fuel: u64) -> (r: Result<Data, LispError>)
    requires
        old(stack).wf(),
        fuel >= 1,
    ensures
        step_matches(s_let(nodes_view(args@), old(stack)@, fuel as nat), r, final(stack)@),
        final(stack)@.frames.len() == old(stack)@.frames.len(),
    decreases fuel, 3int, 0int,
{
    if args.len() % 2 != 0 {
        return Err(LispError::SyntaxError("Variable declaration mismatch.".to_owned()));
    }
    let_pairs(stack, args, 0, fuel)
}

fn let_pairs(stack: &mut NSStack, args: &[Node], i: usize, fuel: u64) -> (r: Result<
    Data,
    LispError,
>)
    requires
        old(stack).wf(),
        fuel >= 1,
        i <= args@.len(),
        args@.len() % 2 == 0,
        i % 2 == 0,
    ensures
        step_matches(
            s_let_pairs(nodes_view(args@), i as int, old(stack)@, fuel as nat),
            r,
            final(stack)@,
        ),
        final(stack)@.frames.len() == old(stack)@.frames.len(),
    decreases fuel, 2int, args@.len() - i,
{
    if i >= args.len() {
        return Ok(Data::Empty);
    }
    match &args[i] {
        Node::Identifier(id) => match args[i + 1].eval_fueled(stack, fuel - 1) {
            Ok(v) => {
                stack.define(id.clone(), v);
                let_pairs(stack, args, i + 2, fuel)
            },
            Err(e) => Err(e),
        },
        _ => Err(LispError::TypeError("let key is not an identifier.".to_owned())),
    }
}

/// `do`: at least one argument; evaluate each in order in the current
/// frame and return the last result.
pub fn f_do(stack: &mut NSStack, args: &[Node], fuel: u64) -> (r: Result<Data, LispError>)
    requires
        old(stack).wf(),
        fuel >= 1,
    ensures
        step_matches(s_do(nodes_view(args@), old(stack)@, fuel as nat), r, final(stack)@),
        final(stack)@.frames.len() == old(stack)@.frames.len(),
    decreases fuel, 3int, 0int,
{
    if args.len() == 0 {
        return Err(LispError::SyntaxError("Empty do block".to_owned()));
    }
    do_seq(stack, args, 0, fuel)
}

fn do_seq(stack: &mut NSStack, args: &[Node], i: usize, fuel: u64) -> (r: Result<
    Data,
    LispError,
>)
    requires
        old(stack).wf(),
        fuel >= 1,
        i < args@.len(),
    ensures
        step_matches(
            s_do_seq(nodes_view(args@), i as int, old(stack)@, fuel as nat),
            r,
            final(stack)@,
        ),
        final(stack)@.frames.len() == old(stack)@.frames.len(),
    decreases fuel, 2int, args@.len() - i,
{
    let r = args[i].eval_fueled(stack, fuel - 1);
    if i == args.len() - 1 {
        r
    } else {
        match r {
            Ok(_) => do_seq(stack, args, i + 1, fuel),
            Err(e) => Err(e),
        }
    }
}

/// `if`: exactly three arguments; the condition is evaluated, then
/// exactly one branch, chosen by truthiness.
pub fn f_if(stack: &mut NSStack, args: &[Node], fuel: u64) -> (r: Result<Data, LispError>)
    requires
        old(stack).wf(),
        fuel >= 1,
    ensures
        step_matches(s_if(nodes_view(args@), old(stack)@, fuel as nat), r, final(stack)@),
        final(stack)@.frames.len() == old(stack)@.frames.len(),
    decreases fuel, 3int, 0int,
{
    if args.len() != 3 {
        return Err(LispError::SyntaxError("If statement should have 3 arguments.".to_owned()));
    }
    match args[0].eval_fueled(stack, fuel - 1) {
        Err(e) => Err(e),
        Ok(c) => if c.is_truthy() {
            args[1].eval_fueled(stack, fuel - 1)
        } else {
            args[2].eval_fueled(stack, fuel - 1)
        },
    }
}

/// `fn`: the first argument is a list of identifiers, the parameter
/// names; the second is kept unevaluated as the body. Nothing is
/// evaluated and the stack does not change.
pub fn f_fn(stack: &mut NSStack, args: &[Node]) -> (r: Result<Data, LispError>)
    ensures
        res_view(r) == s_fnform(nodes_view(args@)),
        final(stack)@ == old(stack)@,
{
    if args.len() < 1 {
        return Err(LispError::SyntaxError(
            "Function declaration should get a list of arguments and a body!".to_owned(),
        ));
    }
    match &args[0] {
        Node::List(ns) => {
            proof {
                lemma_list_view(ns@);
            }
            let mut arglist: Vec<String> = Vec::new();
            let mut i: usize = 0;
            while i < ns.len()
                invariant
                    i <= ns.len(),
                    arglist@.len() == i as nat,
                    args@.len() >= 1,
                    args@[0]@ == NodeV::List(list_view(ns@)),
                    forall|j: int| 0 <= j < i ==> #[trigger] ns@[j]@ is Identifier,
                    forall|j: int| 0 <= j < i ==> arglist@[j]@ == ns@[j]@->Identifier_0,
                decreases ns@.len() - i,
            {
                match &ns[i] {
                    Node::Identifier(id) => {
                        arglist.push(id.clone());
                        i = i + 1;
                    },
                    _ => {
                        proof {
                            lemma_list_view(ns@);
                            assert(ns@[i as int]@ === list_view(ns@)[i as int]);
                        }
                        return Err(LispError::SyntaxError(
                            "When declaring function, all arguments should be identifiers."
                                .to_owned(),
                        ));
                    },
                }
            }
            if args.len() < 2 {
                return Err(LispError::SyntaxError(
                    "Function declaration doesn't have a body!".to_owned(),
                ));
            }
            let r = Data::Function(arglist, args[1].duplicate());
            proof {
                lemma_list_view(ns@);
                let ns_v = list_view(ns@);
                assert(forall|j: int| 0 <= j < ns_v.len() ==> #[trigger] ns_v[j] is Identifier);
                assert(names_view(r->Function_0@) =~= Seq::new(
                    ns_v.len(),
                    |j: int| ns_v[j]->Identifier_0,
                ));
            }
            Ok(r)
        },
        _ => Err(LispError::SyntaxError(
            "Function arguments should be given in a list.".to_owned(),
        )),
    }
}

/// `quote`: capture the first argument unevaluated. The stack does not
/// change.
pub fn quote(stack: &mut NSStack, args: &[Node]) -> (r: Result<Data, LispError>)
    ensures
        res_view(r) == s_quoteform(nodes_view(args@)),
        final(stack)@ == old(stack)@,
{
    if args.len() == 0 {
        return Err(LispError::SyntaxError("Quote received zero arguments.".to_owned()));
    }
    Ok(Data::Quote(args[0].duplicate()))
}

/// `unquote`: evaluate the first argument; if the result is a quote,
/// evaluate the captured node and return that result.
pub fn unquote(stack: &mut NSStack, args: &[Node], fuel: u64) -> (r: Result<Data, LispError>)
    requires
        old(stack).wf(),
        fuel >= 1,
    ensures
        step_matches(s_unquote(nodes_view(args@), old(stack)@, fuel as nat), r, final(stack)@),
        final(stack)@.frames.len() == old(stack)@.frames.len(),
    decreases fuel, 3int, 0int,
{
    if args.len() == 0 {
        return Err(LispError::SyntaxError("Quote received zero arguments.".to_owned()));
    }
    match args[0].eval_fueled(stack, fuel - 1) {
        Err(e) => Err(e),
        Ok(d) => match d {
            Data::Quote(n) => n.eval_fueled(stack, fuel - 1),
            _ => Err(LispError::TypeError("value is not a quote.".to_owned())),
        },
    }
}

/// `debug`: evaluate each argument in order and record the value for the
/// driver to print; the result is `Empty`.
pub fn debug(stack: &mut NSStack, args: &[Node], fuel: u64) -> (r: Result<Data, LispError>)
    requires
        old(stack).wf(),
        fuel >= 1,
    ensures
        step_matches(
            s_debug(nodes_view(args@), 0, old(stack)@, fuel as nat),
            r,
            final(stack)@,
        ),
        final(stack)@.frames.len() == old(stack)@.frames.len(),
    decreases fuel, 3int, 0int,
{
    debug_seq(stack, args, 0, fuel)
}

fn debug_seq(stack: &mut NSStack, args: &[Node], i: usize, fuel: u64) -> (r: Result<
    Data,
    LispError,
>)
    requires
        old(stack).wf(),
        fuel >= 1,
        i <= args@.len(),
    ensures
        step_matches(
            s_debug(nodes_view(args@), i as int, old(stack)@, fuel as nat),
            r,
            final(stack)@,
        ),
        final(stack)@.frames.len() == old(stack)@.frames.len(),
    decreases fuel, 2int, args@.len() - i,
{
    if i >= args.len() {
        return Ok(Data::Empty);
    }
    match args[i].eval_fueled(stack, fuel - 1) {
        Err(e) => Err(e),
        Ok(v) => {
            stack.record(v);
            debug_seq(stack, args, i + 1, fuel)
        },
    }
}

/// Evaluate two operand nodes in order; the first error stops.
fn eval2(stack: &mut NSStack, a: &Node, b: &Node, fuel: u64) -> (r: Result<
    (Data, Data),
    LispError,
>)
    requires
        old(stack).wf(),
        fuel >= 1,
    ensures
        ({
            let s = s_eval2(a@, b@, old(stack)@, fuel as nat);
            &&& match r {
                Ok(p) => s.0 is Ok && s.0->Ok_0.0 == p.0@ && s.0->Ok_0.1 == p.1@,
                Err(e) => s.0 == Err::<(DataV, DataV), ErrV>(e@),
            }
            &&& final(stack)@ == s.1
        }),
        final(stack)@.frames.len() == old(stack)@.frames.len(),
    decreases fuel, 2int, 0int,
{
    match a.eval_fueled(stack, fuel - 1) {
        Err(e) => Err(e),
        Ok(va) => match b.eval_fueled(stack, fuel - 1) {
            Err(e) => Err(e),
            Ok(vb) => Ok((va, vb)),
        },
    }
}

/// `=`: exactly two arguments; evaluate both and compare by value
/// equality. `Int(1)` when equal, `Int(0)` when not.
pub fn eq(stack: &mut NSStack, args: &[Node], fuel: u64) -> (r: Result<Data, LispError>)
    requires
        old(stack).wf(),
        fuel >= 1,
    ensures
        step_matches(s_eqform(nodes_view(args@), old(stack)@, fuel as nat), r, final(stack)@),
        final(stack)@.frames.len() == old(stack)@.frames.len(),
    decreases fuel, 3int, 0int,
{
    if args.len() != 2 {
        return Err(LispError::SyntaxError("= only takes 2 arguments".to_owned()));
    }
    match eval2(stack, &args[0], &args[1], fuel) {
        Err(e) => Err(e),
        Ok((l, r)) => Ok(Data::Int(if l.value_eq(&r) { 1 } else { 0 })),
    }
}

/// `!=`: exactly two arguments; the complement of `=`.
pub fn ne(stack: &mut NSStack, args: &[Node], fuel: u64) -> (r: Result<Data, LispError>)
    requires
        old(stack).wf(),
        fuel >= 1,
    ensures
        step_matches(s_neform(nodes_view(args@), old(stack)@, fuel as nat), r, final(stack)@),
        final(stack)@.frames.len() == old(stack)@.frames.len(),
    decreases fuel, 3int, 0int,
{
    if args.len() != 2 {
        return Err(LispError::SyntaxError("= only takes 2 arguments".to_owned()));
    }
    match eval2(stack, &args[0], &args[1], fuel) {
        Err(e) => Err(e),
        Ok((l, r)) => Ok(Data::Int(if l.value_eq(&r) { 0 } else { 1 })),
    }
}

/// `+`: exactly two integer operands; the exact sum, or a `Runtime` error
/// when it does not fit in 32 signed bits.
pub fn add(stack: &mut NSStack, args: &[Node], fuel: u64) -> (r: Result<Data, LispError>)
    requires
        old(stack).wf(),
        fuel >= 1,
    ensures
        step_matches(
            s_arith(ArithOp::Add, nodes_view(args@), old(stack)@, fuel as nat),
            r,
            final(stack)@,
        ),
        final(stack)@.frames.len() == old(stack)@.frames.len(),
    decreases fuel, 3int, 0int,
{
    if args.len() != 2 {
        return Err(LispError::SyntaxError("+ only takes 2 arguments".to_owned()));
    }
    match eval2(stack, &args[0], &args[1], fuel) {
        Err(e) => Err(e),
        Ok((l, r)) => match (l, r) {
            (Data::Int(a), Data::Int(b)) => {
                let s64: i64 = (a as i64) + (b as i64);
                if s64 < (i32::MIN as i64) || s64 > (i32::MAX as i64) {
                    Err(LispError::Runtime("arithmetic overflow.".to_owned()))
                } else {
                    Ok(Data::Int(s64 as i32))
                }
            },
            _ => Err(LispError::TypeError("You can only add integers.".to_owned())),
        },
    }
}

/// `-`: exactly two integer operands; the exact difference, or a
/// `Runtime` error when it does not fit.
pub fn sub(stack: &mut NSStack, args: &[Node], fuel: u64) -> (r: Result<Data, LispError>)
    requires
        old(stack).wf(),
        fuel >= 1,
    ensures
        step_matches(
            s_arith(ArithOp::Sub, nodes_view(args@), old(stack)@, fuel as nat),
            r,
            final(stack)@,
        ),
        final(stack)@.frames.len() == old(stack)@.frames.len(),
    decreases fuel, 3int, 0int,
{
    if args.len() != 2 {
        return Err(LispError::SyntaxError("- only takes 2 arguments".to_owned()));
    }
    match eval2(stack, &args[0], &args[1], fuel) {
        Err(e) => Err(e),
        Ok((l, r)) => match (l, r) {
            (Data::Int(a), Data::Int(b)) => {
                let s64: i64 = (a as i64) - (b as i64);
                if s64 < (i32::MIN as i64) || s64 > (i32::MAX as i64) {
                    Err(LispError::Runtime("arithmetic overflow.".to_owned()))
                } else {
                    Ok(Data::Int(s64 as i32))
                }
            },
            _ => Err(LispError::TypeError("You can only subtract integers.".to_owned())),
        },
    }
}

/// `*`: exactly two integer operands; the exact product, or a `Runtime`
/// error when it does not fit.
pub fn mul(stack: &mut NSStack, args: &[Node], fuel: u64) -> (r: Result<Data, LispError>)
    requires
        old(stack).wf(),
        fuel >= 1,
    ensures
        step_matches(
            s_arith(ArithOp::Mul, nodes_view(args@), old(stack)@, fuel as nat),
            r,
            final(stack)@,
        ),
        final(stack)@.frames.len() == old(stack)@.frames.len(),
    decreases fuel, 3int, 0int,
{
    if args.len() != 2 {
        return Err(LispError::SyntaxError("* only takes 2 arguments".to_owned()));
    }
    match eval2(stack, &args[0], &args[1], fuel) {
        Err(e) => Err(e),
        Ok((l, r)) => match (l, r) {
            (Data::Int(a), Data::Int(b)) => {
                proof {
                    assert((a as int) * (b as int) <= 0x4000_0000_0000_0000
                        && (a as int) * (b as int) >= -0x4000_0000_0000_0000) by (nonlinear_arith)
                        requires
                            -0x8000_0000 <= a as int <= 0x7FFF_FFFF,
                            -0x8000_0000 <= b as int <= 0x7FFF_FFFF,
                    {
                    }
                }
                let s64: i64 = (a as i64) * (b as i64);
                if s64 < (i32::MIN as i64) || s64 > (i32::MAX as i64) {
                    Err(LispError::Runtime("arithmetic overflow.".to_owned()))
                } else {
                    Ok(Data::Int(s64 as i32))
                }
            },
            _ => Err(LispError::TypeError("You can only multiply integers.".to_owned())),
        },
    }
}

/// The absolute value of a 32-bit signed integer, widened so that the
/// minimum is representable.
fn abs_u64(a: i32) -> (r: u64)
    ensures
        r == abs(a as int),
{
    if a < 0 {
        (-(a as i64)) as u64
    } else {
        a as u64
    }
}

/// `/`: exactly two integer operands; truncated division. Division by
/// zero, and the one overflowing quotient, are `Runtime` errors.
pub fn div(stack: &mut NSStack, args: &[Node], fuel: u64) -> (r: Result<Data, LispError>)
    requires
        old(stack).wf(),
        fuel >= 1,
    ensures
        step_matches(
            s_arith(ArithOp::Div, nodes_view(args@), old(stack)@, fuel as nat),
            r,
            final(stack)@,
        ),
        final(stack)@.frames.len() == old(stack)@.frames.len(),
    decreases fuel, 3int, 0int,
{
    if args.len() != 2 {
        return Err(LispError::SyntaxError("/ only takes 2 arguments".to_owned()));
    }
    match eval2(stack, &args[0], &args[1], fuel) {
        Err(e) => Err(e),
        Ok((l, r)) => match (l, r) {
            (Data::Int(a), Data::Int(b)) => {
                if b == 0 || (a == i32::MIN && b == -1) {
                    return Err(LispError::Runtime("division by zero or overflow.".to_owned()));
                }
                let xa = abs_u64(a);
                let ya = abs_u64(b);
                let q: u64 = xa / ya;
                proof {
                    assert(q <= xa) by (nonlinear_arith)
                        requires
                            ya >= 1,
                            q == xa / ya,
                            xa >= 0,
                    {
                    }
                    if a == i32::MIN && !((a < 0) != (b < 0)) {
                        assert(ya >= 2);
                        assert(q <= xa / 2) by (nonlinear_arith)
                            requires
                                ya >= 2,
                                q == xa / ya,
                                xa >= 0,
                        {
                        }
                    }
                }
                if (a < 0) != (b < 0) {
                    Ok(Data::Int((-(q as i64)) as i32))
                } else {
                    Ok(Data::Int(q as i32))
                }
            },
            _ => Err(LispError::TypeError("You can only divide integers.".to_owned())),
        },
    }
}

/// `mod`: exactly two integer operands; the truncated remainder, with
/// the sign of the dividend. Modulo by zero is a `Runtime` error.
pub fn modul(stack: &mut NSStack, args: &[Node], fuel: u64) -> (r: Result<Data, LispError>)
    requires
        old(stack).wf(),
        fuel >= 1,
    ensures
        step_matches(
            s_arith(ArithOp::Mod, nodes_view(args@), old(stack)@, fuel as nat),
            r,
            final(stack)@,
        ),
        final(stack)@.frames.len() == old(stack)@.frames.len(),
    decreases fuel, 3int, 0int,
{
    if args.len() != 2 {
        return Err(LispError::SyntaxError("mod only takes 2 arguments".to_owned()));
    }
    match eval2(stack, &args[0], &args[1], fuel) {
        Err(e) => Err(e),
        Ok((l, r)) => match (l, r) {
            (Data::Int(a), Data::Int(b)) => {
                if b == 0 {
                    return Err(LispError::Runtime("modulo by zero.".to_owned()));
                }
                let xa = abs_u64(a);
                let ya = abs_u64(b);
                let ru: u64 = xa % ya;
                proof {
                    assert(ru < ya) by (nonlinear_arith)
                        requires
                            ya >= 1,
                            ru == xa % ya,
                            xa >= 0,
                    {
                    }
                }
                if a < 0 {
                    Ok(Data::Int((-(ru as i64)) as i32))
                } else {
                    proof {
                        assert(ru <= xa) by (nonlinear_arith)
                            requires
                                ya >= 1,
                                ru == xa % ya,
                                xa >= 0,
                        {
                        }
                    }
                    Ok(Data::Int(ru as i32))
                }
            },
            _ => Err(LispError::TypeError("You can only take the modulo of integers.".to_owned())),
        },
    }
}

/// One long-lived evaluator instance: the scope stack persists across
/// top-level expressions, so earlier top-level bindings stay visible.
pub struct Runtime {
    /// The scope stack; the base frame holds the intrinsics.
    pub stack: NSStack,
}

impl Runtime {
    /// A fresh runtime: one base frame populated with every intrinsic.
    pub fn try_new() -> (r: Result<Runtime, LispError>)
        ensures
            r matches Ok(rt) && rt.stack@.frames.len() == 1 && rt.stack@.frames[0]
                == initial_env() && rt.stack@.out == Seq::<DataV>::empty() && rt.stack.wf(),
    {
        let mut stack = NSStack::new();
        stack.register_intrinsic("let")?;
        stack.register_intrinsic("quote")?;
        stack.register_intrinsic("unquote")?;
        stack.register_intrinsic("do")?;
        stack.register_intrinsic("if")?;
        stack.register_intrinsic("fn")?;
        stack.register_intrinsic("debug")?;
        stack.register_intrinsic("+")?;
        stack.register_intrinsic("-")?;
        stack.register_intrinsic("*")?;
        stack.register_intrinsic("/")?;
        stack.register_intrinsic("mod")?;
        stack.register_intrinsic("=")?;
        stack.register_intrinsic("!=")?;
        Ok(Runtime { stack })
    }

    /// Evaluate one top-level expression with the default depth budget.
    /// The result, the bindings afterwards, and the recorded `debug`
    /// output are exactly what the abstract interpreter says; the frame
    /// count is unchanged on success and on failure alike.
    pub fn eval(&mut self, node: Node) -> (r: Result<Data, LispError>)
        requires
            old(self).stack.wf(),
        ensures
            step_matches(
                s_eval(node@, old(self).stack@, DEFAULT_FUEL as nat),
                r,
                final(self).stack@,
            ),
            final(self).stack@.frames.len() == old(self).stack@.frames.len(),
    {
        node.eval(&mut self.stack)
    }

    /// Hand over the values `debug` has recorded, oldest first, clearing
    /// the record; the driver prints them.
    pub fn take_output(&mut self) -> (r: Vec<Data>)
        ensures
            datas_view(r@) == old(self).stack@.out,
            final(self).stack@.frames == old(self).stack@.frames,
            final(self).stack@.out == Seq::<DataV>::empty(),
    {
        self.stack.take_output()
    }
}

} // verus!
