//! The tree-walking evaluator and its scoped variable environment.
//!
//! Values are dynamically typed; numbers carry IEEE-754 binary64 bit
//! patterns. Control-flow conditions are judged by truthiness uniformly:
//! nil and false are falsy, everything else is truthy. Evaluation is
//! fail-fast: the first runtime error aborts the remaining declarations.
//! Loops of the interpreted program run against a step budget, since
//! every function here is proved to terminate; exhausting it reports
//! `ExecutionLimitReached`.
use vstd::prelude::*;
use vstd::string::*;
use crate::ast::{
    Expression, Unary, Binary, Primary, BinaryOperator, UnaryOperator, VariableDeclaration,
    ForLoopInitializer, Statement, Block, Declaration, Program, ExprM, PrimM, VarDeclM, StmtM,
    DeclM, view_expr, view_prim, view_vardecl, view_stmt, view_decl, view_decl_seq, view_expr_seq,
    lemma_view_decl_seq_props, lemma_view_expr_seq_props,
};
use crate::parser::Ast;
use crate::numeric::{
    num_add, num_sub, num_mul, num_div, num_eq, num_lt, num_le, negate_bits, u64_to_f64_bits,
    neg_bits, add_bits, sub_bits, mul_bits, div_bits, eq_bits, lt_bits, le_bits, f64_bits_of_u64,
};

verus! {

/// A runtime failure; evaluation halts at the first one.
#[derive(Clone, Copy, Debug, PartialEq, Eq, Structural)]
pub enum RuntimeError {
    VariableRedefinition,
    VariableDoesNotExist,
    NotCallable,
    WrongNumberOfArguments,
    TypeError,
    /// The interpreter's step budget for loops was exhausted.
    ExecutionLimitReached,
}

/// A host-provided native function.
#[derive(Clone, Copy, Debug, PartialEq, Eq, Structural)]
pub enum NativeFn {
    /// Seconds of wall-clock time since a fixed origin.
    Time,
}

/// A callable value: its arity and the native function it runs.
#[derive(Clone, Copy, Debug, PartialEq, Eq, Structural)]
pub struct Callable {
    pub arity: usize,
    pub function: NativeFn,
}

#[derive(Debug)]
pub enum Value {
    Numeric(u64),
    String_(String),
    Boolean(bool),
    Callable(Callable),
    Nil,
}

/// An exact copy of a value.
pub fn clone_value(v: &Value) -> (r: Value)
    ensures
        r == *v,
{
    match v {
        Value::Numeric(b) => Value::Numeric(*b),
        Value::String_(s) => Value::String_(s.clone()),
        Value::Boolean(b) => Value::Boolean(*b),
        Value::Callable(c) => Value::Callable(*c),
        Value::Nil => Value::Nil,
    }
}

/// Nil and false are falsy; every other value is truthy. This one rule
/// judges the conditions of `if`, `while` and `for` alike.
pub open spec fn spec_truthy(v: Value) -> bool {
    match v {
        Value::Boolean(b) => b,
        Value::Nil => false,
        _ => true,
    }
}

/// Truthiness is preserved by the value mirror.
pub proof fn lemma_truthy(v: Value)
    ensures
        spec_truthy(v) == truthy_m(v@),
{
    match v {
        Value::Numeric(b) => {
            assert(v@ == ValueM::Num(b));
        },
        Value::String_(sv) => {
            assert(v@ == ValueM::Str(sv@));
        },
        Value::Boolean(b) => {
            assert(v@ == ValueM::Bool(b));
        },
        Value::Callable(c) => {
            assert(v@ == (ValueM::Call { arity: c.arity as int, function: c.function }));
        },
        Value::Nil => {
            assert(v@ == ValueM::Nil);
        },
    }
}

pub fn is_truthy(v: &Value) -> (r: bool)
    ensures
        r == spec_truthy(*v),
        r == truthy_m(v@),
{
    proof {
        lemma_truthy(*v);
    }
    match v {
        Value::Boolean(b) => *b,
        Value::Nil => false,
        _ => true,
    }
}

/// Relies on std::time::SystemTime: the wall-clock seconds since the
/// epoch, or zero for a clock before it. Nothing is promised of the
/// result: the clock may return anything.
#[verifier::external_body]
fn clock_seconds() -> u64 {
    match std::time::SystemTime::now().duration_since(std::time::SystemTime::UNIX_EPOCH) {
        Ok(d) => d.as_secs(),
        Err(_) => 0,
    }
}

impl Callable {
    pub fn new(arity: usize, function: NativeFn) -> (r: Callable)
        ensures
            r.arity == arity,
            r.function == function,
    {
        Callable { arity, function }
    }

    pub fn arity(&self) -> (r: usize)
        ensures
            r == self.arity,
    {
        self.arity
    }

    /// Runs the native function. The clock's value is arbitrary, so
    /// only the outcome's envelope is promised: the named conversion of
    /// some clock reading.
    pub fn call(&self, arguments: &Vec<Value>) -> (r: Value)
        ensures
            r is Numeric,
            exists|secs: u64| r == Value::Numeric(f64_bits_of_u64(secs)),
    {
        match self.function {
            NativeFn::Time => {
                let secs = clock_seconds();
                let r = Value::Numeric(u64_to_f64_bits(secs));
                proof {
                    assert(r == Value::Numeric(f64_bits_of_u64(secs)));
                }
                r
            },
        }
    }
}

struct Frame {
    variables: Vec<(String, Value)>,
}

/// A stack of frames, innermost last. Within one frame an identifier is
/// declared at most once; an inner frame shadows outer ones.
pub struct Environment {
    stack: Vec<Frame>,
}

/// First value bound to `name` in a frame, scanning in insertion order.
pub open spec fn frame_lookup(entries: Seq<(String, Value)>, name: Seq<char>) -> Option<Value>
    decreases entries.len(),
{
    if entries.len() == 0 {
        None
    } else if entries[0].0@ == name {
        Some(entries[0].1)
    } else {
        frame_lookup(entries.drop_first(), name)
    }
}

/// Lookup across the stack, innermost frame first.
pub open spec fn env_lookup(stack: Seq<Seq<(String, Value)>>, name: Seq<char>) -> Option<Value>
    decreases stack.len(),
{
    if stack.len() == 0 {
        None
    } else {
        match frame_lookup(stack.last(), name) {
            Some(v) => Some(v),
            None => env_lookup(stack.drop_last(), name),
        }
    }
}


// ------------------------------------------------------------------
// Ghost mirror of values and environments
// ------------------------------------------------------------------

/// The ghost model of a value: text as a character sequence.
#[verifier::ext_equal]
pub enum ValueM {
    Num(u64),
    Str(Seq<char>),
    Bool(bool),
    Call { arity: int, function: NativeFn },
    Nil,
}

impl View for Value {
    type V = ValueM;

    open spec fn view(&self) -> ValueM {
        match self {
            Value::Numeric(b) => ValueM::Num(*b),
            Value::String_(s) => ValueM::Str(s@),
            Value::Boolean(b) => ValueM::Bool(*b),
            Value::Callable(c) => ValueM::Call { arity: c.arity as int, function: c.function },
            Value::Nil => ValueM::Nil,
        }
    }
}

/// A frame's bindings in the mirror.
pub open spec fn fm(entries: Seq<(String, Value)>) -> Seq<(Seq<char>, ValueM)> {
    entries.map_values(|p: (String, Value)| (p.0@, p.1@))
}

/// The whole frame stack in the mirror.
pub open spec fn em(stack: Seq<Seq<(String, Value)>>) -> Seq<Seq<(Seq<char>, ValueM)>> {
    stack.map_values(|f: Seq<(String, Value)>| fm(f))
}

/// Printed output in the mirror.
pub open spec fn vout(vs: Seq<Value>) -> Seq<ValueM> {
    vs.map_values(|v: Value| v@)
}

/// First mirrored binding of `name` in a frame.
pub open spec fn flm(entries: Seq<(Seq<char>, ValueM)>, name: Seq<char>) -> Option<ValueM>
    decreases entries.len(),
{
    if entries.len() == 0 {
        None
    } else if entries[0].0 == name {
        Some(entries[0].1)
    } else {
        flm(entries.drop_first(), name)
    }
}

/// Mirrored lookup across the stack, innermost frame first.
pub open spec fn elm(stack: Seq<Seq<(Seq<char>, ValueM)>>, name: Seq<char>) -> Option<ValueM>
    decreases stack.len(),
{
    if stack.len() == 0 {
        None
    } else {
        match flm(stack.last(), name) {
            Some(v) => Some(v),
            None => elm(stack.drop_last(), name),
        }
    }
}

/// Declaring in the mirror: an error when the innermost frame already
/// binds the name, else the binding appended there.
pub open spec fn env_declare_m(
    st: Seq<Seq<(Seq<char>, ValueM)>>,
    name: Seq<char>,
    v: ValueM,
) -> Result<Seq<Seq<(Seq<char>, ValueM)>>, RuntimeError> {
    if st.len() == 0 {
        Err(RuntimeError::VariableRedefinition)
    } else if flm(st.last(), name) is Some {
        Err(RuntimeError::VariableRedefinition)
    } else {
        Ok(st.update(st.len() - 1, st.last().push((name, v))))
    }
}

/// Assigning within one mirrored frame: the first binding of the name
/// is replaced.
pub open spec fn frame_assign_m(
    entries: Seq<(Seq<char>, ValueM)>,
    name: Seq<char>,
    v: ValueM,
) -> Seq<(Seq<char>, ValueM)>
    decreases entries.len(),
{
    if entries.len() == 0 {
        entries
    } else if entries[0].0 == name {
        seq![(name, v)] + entries.drop_first()
    } else {
        seq![entries[0]] + frame_assign_m(entries.drop_first(), name, v)
    }
}

/// Assigning in the mirror: the innermost frame binding the name is
/// updated; a name bound nowhere is an error.
pub open spec fn env_assign_m(
    st: Seq<Seq<(Seq<char>, ValueM)>>,
    name: Seq<char>,
    v: ValueM,
) -> Result<Seq<Seq<(Seq<char>, ValueM)>>, RuntimeError>
    decreases st.len(),
{
    if st.len() == 0 {
        Err(RuntimeError::VariableDoesNotExist)
    } else if flm(st.last(), name) is Some {
        Ok(st.drop_last().push(frame_assign_m(st.last(), name, v)))
    } else {
        match env_assign_m(st.drop_last(), name, v) {
            Ok(rest) => Ok(rest.push(st.last())),
            Err(e) => Err(e),
        }
    }
}

/// Frame lookup and its mirror agree.
pub proof fn lemma_flm_fm(entries: Seq<(String, Value)>, name: Seq<char>)
    ensures
        flm(fm(entries), name) == (match frame_lookup(entries, name) {
            Some(v) => Some(v@),
            None => None::<ValueM>,
        }),
    decreases entries.len(),
{
    if entries.len() > 0 {
        assert(fm(entries)[0] == (entries[0].0@, entries[0].1@));
        assert(fm(entries).drop_first() =~= fm(entries.drop_first()));
        lemma_flm_fm(entries.drop_first(), name);
    }
}

/// Environment lookup and its mirror agree.
pub proof fn lemma_elm_em(stack: Seq<Seq<(String, Value)>>, name: Seq<char>)
    ensures
        elm(em(stack), name) == (match env_lookup(stack, name) {
            Some(v) => Some(v@),
            None => None::<ValueM>,
        }),
    decreases stack.len(),
{
    if stack.len() > 0 {
        assert(em(stack).last() == fm(stack.last()));
        assert(em(stack).drop_last() =~= em(stack.drop_last()));
        lemma_flm_fm(stack.last(), name);
        lemma_elm_em(stack.drop_last(), name);
    }
}

/// Replacing the first hit of `name` in a frame mirrors to
/// `frame_assign_m`.
proof fn lemma_frame_assign_m(
    entries: Seq<(String, Value)>,
    i: int,
    name: Seq<char>,
    nv: (String, Value),
)
    requires
        0 <= i < entries.len(),
        entries[i].0@ == name,
        forall|m: int| 0 <= m < i ==> (#[trigger] entries[m]).0@ != name,
        nv.0@ == name,
    ensures
        fm(entries.update(i, nv)) == frame_assign_m(fm(entries), name, nv.1@),
    decreases entries.len(),
{
    if i == 0 {
        assert(fm(entries)[0].0 == name);
        assert(fm(entries.update(0, nv)) =~= seq![(name, nv.1@)] + fm(entries).drop_first());
    } else {
        assert(fm(entries)[0].0 == entries[0].0@);
        assert(entries[0].0@ != name);
        assert(entries.update(i, nv).drop_first() =~= entries.drop_first().update(i - 1, nv));
        assert(entries.drop_first()[i - 1] == entries[i]);
        assert(forall|m: int|
            0 <= m < i - 1 ==> (#[trigger] entries.drop_first()[m]).0@ != name);
        lemma_frame_assign_m(entries.drop_first(), i - 1, name, nv);
        assert(fm(entries.drop_first()) =~= fm(entries).drop_first());
        assert(fm(entries.update(i, nv)) =~= seq![fm(entries)[0]] + fm(
            entries.drop_first().update(i - 1, nv),
        ));
    }
}

/// Updating the innermost frame that binds `name` mirrors to
/// `env_assign_m`.
proof fn lemma_env_assign_m(
    stack: Seq<Seq<(String, Value)>>,
    f: int,
    name: Seq<char>,
    newf: Seq<(String, Value)>,
    v: ValueM,
)
    requires
        0 <= f < stack.len(),
        frame_lookup(stack[f], name) is Some,
        forall|g: int| f < g < stack.len() ==> frame_lookup(#[trigger] stack[g], name) is None,
        fm(newf) == frame_assign_m(fm(stack[f]), name, v),
    ensures
        env_assign_m(em(stack), name, v) == Ok::<Seq<Seq<(Seq<char>, ValueM)>>, RuntimeError>(
            em(stack.update(f, newf)),
        ),
    decreases stack.len(),
{
    assert(em(stack).last() == fm(stack.last()));
    if f == stack.len() - 1 {
        lemma_flm_fm(stack.last(), name);
        assert(flm(em(stack).last(), name) is Some);
        assert(em(stack).drop_last() =~= em(stack.drop_last()));
        assert(em(stack.update(f, newf)) =~= em(stack.drop_last()).push(fm(newf)));
    } else {
        lemma_flm_fm(stack.last(), name);
        assert(flm(em(stack).last(), name) is None);
        assert(em(stack).drop_last() =~= em(stack.drop_last()));
        assert(stack.drop_last()[f] == stack[f]);
        assert(forall|g: int|
            f < g < stack.drop_last().len() ==> frame_lookup(
                #[trigger] stack.drop_last()[g],
                name,
            ) is None);
        lemma_env_assign_m(stack.drop_last(), f, name, newf, v);
        assert(em(stack.update(f, newf)) =~= em(stack.drop_last().update(f, newf)).push(
            fm(stack.last()),
        ));
    }
}

/// A name bound nowhere cannot be assigned, in the mirror either.
proof fn lemma_env_assign_none(stack: Seq<Seq<(String, Value)>>, name: Seq<char>, v: ValueM)
    requires
        env_lookup(stack, name) is None,
    ensures
        env_assign_m(em(stack), name, v) == Err::<Seq<Seq<(Seq<char>, ValueM)>>, RuntimeError>(
            RuntimeError::VariableDoesNotExist,
        ),
    decreases stack.len(),
{
    if stack.len() > 0 {
        assert(em(stack).last() == fm(stack.last()));
        lemma_flm_fm(stack.last(), name);
        assert(em(stack).drop_last() =~= em(stack.drop_last()));
        lemma_env_assign_none(stack.drop_last(), name, v);
    }
}

impl Environment {
    /// The stack of frames, each a sequence of bindings in declaration
    /// order; the innermost frame is last.
    pub closed spec fn view(&self) -> Seq<Seq<(String, Value)>> {
        Seq::new(self.stack@.len(), |i: int| self.stack@[i].variables@)
    }

    /// A fresh environment: one global frame that pre-declares the
    /// native `time` callable.
    pub fn new() -> (r: Environment)
        ensures
            r@.len() == 1,
            r@[0].len() == 1,
            r@[0][0].0@ == "time"@,
            r@[0][0].1 == Value::Callable(Callable { arity: 0, function: NativeFn::Time }),
    {
        let mut vars: Vec<(String, Value)> = Vec::new();
        vars.push(
            (
                String::from_str("time"),
                Value::Callable(Callable { arity: 0, function: NativeFn::Time }),
            ),
        );
        let mut stack: Vec<Frame> = Vec::new();
        stack.push(Frame { variables: vars });
        let r = Environment { stack };
        proof {
            assert(r@[0] =~= vars@);
        }
        r
    }


    /// An exact copy of the frame stack, for the shell to render after a
    /// run: outermost frame first, bindings in declaration order.
    pub fn snapshot(&self) -> (r: Vec<Vec<(String, Value)>>)
        ensures
            r@.len() == self@.len(),
            forall|g: int| 0 <= g < self@.len() ==> #[trigger] r@[g]@ == self@[g],
    {
        let mut frames: Vec<Vec<(String, Value)>> = Vec::new();
        let mut f: usize = 0;
        while f < self.stack.len()
            invariant
                f <= self.stack@.len(),
                frames@.len() == f,
                forall|g: int| 0 <= g < f ==> #[trigger] frames@[g]@ == self@[g],
            decreases self.stack@.len() - f,
        {
            let src = &self.stack[f].variables;
            let mut entries: Vec<(String, Value)> = Vec::new();
            let mut i: usize = 0;
            while i < src.len()
                invariant
                    i <= src@.len(),
                    entries@.len() == i,
                    forall|m: int| 0 <= m < i ==> #[trigger] entries@[m] == src@[m],
                decreases src@.len() - i,
            {
                let name = src[i].0.clone();
                let value = clone_value(&src[i].1);
                entries.push((name, value));
                i += 1;
            }
            proof {
                assert(entries@ =~= src@);
            }
            frames.push(entries);
            f += 1;
        }
        frames
    }

    /// Opens a new innermost frame.
    pub fn push(&mut self)
        ensures
            final(self)@ == old(self)@.push(Seq::<(String, Value)>::empty()),
    {
        let ghost pre = self@;
        self.stack.push(Frame { variables: Vec::new() });
        proof {
            assert(final(self)@ =~= pre.push(Seq::<(String, Value)>::empty()));
        }
    }

    /// Closes the innermost frame; on an empty stack nothing changes.
    pub fn pop(&mut self)
        ensures
            old(self)@.len() > 0 ==> final(self)@ == old(self)@.drop_last(),
            old(self)@.len() == 0 ==> final(self)@ == old(self)@,
    {
        let ghost pre = self@;
        if self.stack.len() > 0 {
            let n = self.stack.len();
            let _ = self.stack.remove(n - 1);
            proof {
                assert(final(self)@ =~= pre.drop_last());
            }
        }
    }

    /// Declares `identifier` in the innermost frame. Redeclaring a name
    /// already bound in that frame is an error and changes nothing.
    pub fn declare_variable(&mut self, identifier: &str, value: Value) -> (r: Result<
        (),
        RuntimeError,
    >)
        requires
            old(self)@.len() > 0,
        ensures
            match r {
                Ok(_) => frame_lookup(old(self)@.last(), identifier@) is None && (exists|
                    p: (String, Value),
                |
                    p.0@ == identifier@ && p.1 == value && final(self)@ == old(self)@.update(
                        old(self)@.len() - 1,
                        old(self)@.last().push(p),
                    )),
                Err(e) => e == RuntimeError::VariableRedefinition && frame_lookup(
                    old(self)@.last(),
                    identifier@,
                ) is Some && final(self)@ == old(self)@,
            },
            match r {
                Ok(_) => env_declare_m(em(old(self)@), identifier@, value@) == Ok::<
                    Seq<Seq<(Seq<char>, ValueM)>>,
                    RuntimeError,
                >(em(final(self)@)),
                Err(e) => env_declare_m(em(old(self)@), identifier@, value@) == Err::<
                    Seq<Seq<(Seq<char>, ValueM)>>,
                    RuntimeError,
                >(e),
            },
    {
        let ghost pre = self@;
        let n = self.stack.len();
        let top = &self.stack[n - 1];
        let mut i: usize = 0;
        proof {
            assert(top.variables@.skip(0) =~= top.variables@);
        }
        loop
            invariant
                i <= top.variables@.len(),
                top == old(self).stack@[old(self).stack@.len() - 1],
                frame_lookup(top.variables@, identifier@) == frame_lookup(
                    top.variables@.skip(i as int),
                    identifier@,
                ),
            ensures
                (i < top.variables@.len() && frame_lookup(top.variables@, identifier@) is Some)
                    || (i >= top.variables@.len() && frame_lookup(
                    top.variables@,
                    identifier@,
                ) is None),
            decreases top.variables@.len() - i,
        {
            if i >= top.variables.len() {
                proof {
                    assert(top.variables@.skip(i as int) =~= Seq::<(String, Value)>::empty());
                }
                break;
            }
            let hit = str_eq_string(identifier, &top.variables[i].0);
            proof {
                assert(top.variables@.skip(i as int)[0] == top.variables@[i as int]);
                assert(top.variables@.skip(i as int).drop_first() =~= top.variables@.skip(
                    i + 1,
                ));
            }
            if hit {
                break;
            }
            i += 1;
        }
        if i < self.stack[n - 1].variables.len() {
            proof {
                assert(em(pre).last() == fm(pre.last()));
                lemma_flm_fm(pre.last(), identifier@);
            }
            return Err(RuntimeError::VariableRedefinition);
        }
        let name = identifier.to_owned();
        let ghost witness = (name, value);
        let nf = self.stack.len();
        let fr = &mut self.stack[nf - 1];
        let ghost fpre = fr.variables@;
        fr.variables.push((name, value));
        proof {
            assert(witness.0@ == identifier@);
            assert(final(self)@ =~= pre.update(pre.len() - 1, pre.last().push(witness)));
            assert(em(pre).last() == fm(pre.last()));
            lemma_flm_fm(pre.last(), identifier@);
            assert(fm(pre.last().push(witness)) =~= fm(pre.last()).push((identifier@, value@)));
            assert(em(final(self)@) =~= em(pre).update(
                pre.len() - 1,
                em(pre).last().push((identifier@, value@)),
            ));
        }
        Ok(())
    }

    /// Looks `identifier` up, scanning frames innermost to outermost.
    pub fn lookup_variable(&self, identifier: &str) -> (r: Option<Value>)
        ensures
            r == env_lookup(self@, identifier@),
            match r {
                Some(v) => elm(em(self@), identifier@) == Some(v@),
                None => elm(em(self@), identifier@) is None,
            },
    {
        proof {
            lemma_elm_em(self@, identifier@);
        }
        let n = self.stack.len();
        let mut f: usize = n;
        proof {
            assert(self@.take(n as int) =~= self@);
        }
        loop
            invariant
                f <= n,
                n == self.stack@.len(),
                env_lookup(self@, identifier@) == env_lookup(self@.take(f as int), identifier@),
            ensures
                f <= n,
                match env_lookup(self@, identifier@) {
                    Some(v) => 0 < f <= n && frame_lookup(self@[f - 1], identifier@) == Some(v),
                    None => f == 0,
                },
            decreases f,
        {
            if f == 0 {
                proof {
                    assert(self@.take(0) =~= Seq::<Seq<(String, Value)>>::empty());
                }
                break;
            }
            let found = frame_get(&self.stack[f - 1], identifier);
            proof {
                assert(self@.take(f as int).last() == self@[f - 1]);
                assert(self@.take(f as int).drop_last() =~= self@.take(f - 1));
                assert(self@[f - 1] == self.stack@[f - 1].variables@);
            }
            if found {
                break;
            }
            f -= 1;
        }
        if f == 0 {
            return None;
        }
        match frame_find(&self.stack[f - 1], identifier) {
            Some(v) => Some(v),
            None => None,
        }
    }

    /// Assigns to the innermost visible binding of `identifier`,
    /// mirroring `env_assign_m` exactly; a name bound nowhere is an
    /// error and changes nothing.
    pub fn assign_variable(&mut self, identifier: &str, value: Value) -> (r: Result<
        (),
        RuntimeError,
    >)
        ensures
            final(self)@.len() == old(self)@.len(),
            match r {
                Ok(_) => env_lookup(old(self)@, identifier@) is Some && env_assign_m(
                    em(old(self)@),
                    identifier@,
                    value@,
                ) == Ok::<Seq<Seq<(Seq<char>, ValueM)>>, RuntimeError>(em(final(self)@)),
                Err(e) => e == RuntimeError::VariableDoesNotExist && env_lookup(
                    old(self)@,
                    identifier@,
                ) is None && final(self)@ == old(self)@ && env_assign_m(
                    em(old(self)@),
                    identifier@,
                    value@,
                ) == Err::<Seq<Seq<(Seq<char>, ValueM)>>, RuntimeError>(e),
            },
    {
        let ghost pre = self@;
        let n = self.stack.len();
        let mut f: usize = n;
        proof {
            assert(self@.take(n as int) =~= self@);
        }
        loop
            invariant
                f <= n,
                n == self.stack@.len(),
                self@ == pre,
                env_lookup(self@, identifier@) == env_lookup(self@.take(f as int), identifier@),
                forall|g: int|
                    f <= g < n ==> frame_lookup(#[trigger] self@[g], identifier@) is None,
            ensures
                f <= n,
                self@ == pre,
                forall|g: int|
                    f <= g < n ==> frame_lookup(#[trigger] self@[g], identifier@) is None,
                match env_lookup(self@, identifier@) {
                    Some(v) => 0 < f <= n && frame_lookup(self@[f - 1], identifier@) == Some(v),
                    None => f == 0,
                },
            decreases f,
        {
            if f == 0 {
                proof {
                    assert(self@.take(0) =~= Seq::<Seq<(String, Value)>>::empty());
                }
                break;
            }
            let found = frame_get(&self.stack[f - 1], identifier);
            proof {
                assert(self@.take(f as int).last() == self@[f - 1]);
                assert(self@.take(f as int).drop_last() =~= self@.take(f - 1));
                assert(self@[f - 1] == self.stack@[f - 1].variables@);
            }
            if found {
                break;
            }
            f -= 1;
        }
        if f == 0 {
            proof {
                lemma_env_assign_none(pre, identifier@, value@);
            }
            return Err(RuntimeError::VariableDoesNotExist);
        }
        let fr = &mut self.stack[f - 1];
        let ghost fpre = fr.variables@;
        let mut i: usize = 0;
        proof {
            assert(fpre.skip(0) =~= fpre);
        }
        loop
            invariant
                i <= fr.variables@.len(),
                fr.variables@ == fpre,
                frame_lookup(fpre, identifier@) is Some,
                frame_lookup(fpre, identifier@) == frame_lookup(
                    fpre.skip(i as int),
                    identifier@,
                ),
                forall|m: int| 0 <= m < i ==> (#[trigger] fpre[m]).0@ != identifier@,
            ensures
                i < fpre.len(),
                fr.variables@ == fpre,
                fpre[i as int].0@ == identifier@,
                forall|m: int| 0 <= m < i ==> (#[trigger] fpre[m]).0@ != identifier@,
            decreases fr.variables@.len() - i,
        {
            let vlen = fr.variables.len();
            proof {
                if i >= fpre.len() {
                    assert(fpre.skip(i as int) =~= Seq::<(String, Value)>::empty());
                    assert(frame_lookup(fpre.skip(i as int), identifier@) is None);
                    assert(false);
                }
            }
            let hit = str_eq_string(identifier, &fr.variables[i].0);
            proof {
                assert(fpre.skip(i as int)[0] == fpre[i as int]);
                assert(fpre.skip(i as int).drop_first() =~= fpre.skip(i + 1));
            }
            if hit {
                break;
            }
            i += 1;
        }
        let name = identifier.to_owned();
        let pair = (name, value);
        let ghost pw = pair;
        fr.variables.set(i, pair);
        proof {
            assert(pw.0@ == identifier@);
            assert(pw.1 == value);
            assert(fr.variables@ =~= fpre.update(i as int, pw));
            lemma_frame_assign_m(fpre, i as int, identifier@, pw);
            assert(self@ =~= pre.update(f - 1, fr.variables@));
            assert(pre[f - 1] == fpre);
            lemma_env_assign_m(pre, f - 1, identifier@, fr.variables@, value@);
        }
        Ok(())
    }
}

/// Whether a frame binds `identifier`.
fn frame_get(fr: &Frame, identifier: &str) -> (r: bool)
    ensures
        r == (frame_lookup(fr.variables@, identifier@) is Some),
{
    match frame_find(fr, identifier) {
        Some(_) => true,
        None => false,
    }
}

/// The value a frame binds `identifier` to, if any.
fn frame_find(fr: &Frame, identifier: &str) -> (r: Option<Value>)
    ensures
        r == frame_lookup(fr.variables@, identifier@),
{
    let mut i: usize = 0;
    proof {
        assert(fr.variables@.skip(0) =~= fr.variables@);
    }
    loop
        invariant
            i <= fr.variables@.len(),
            frame_lookup(fr.variables@, identifier@) == frame_lookup(
                fr.variables@.skip(i as int),
                identifier@,
            ),
        ensures
            match frame_lookup(fr.variables@, identifier@) {
                Some(v) => i < fr.variables@.len() && fr.variables@[i as int].1 == v
                    && fr.variables@[i as int].0@ == identifier@,
                None => i >= fr.variables@.len(),
            },
        decreases fr.variables@.len() - i,
    {
        if i >= fr.variables.len() {
            proof {
                assert(fr.variables@.skip(i as int) =~= Seq::<(String, Value)>::empty());
            }
            break;
        }
        let hit = str_eq_string(identifier, &fr.variables[i].0);
        proof {
            assert(fr.variables@.skip(i as int)[0] == fr.variables@[i as int]);
            assert(fr.variables@.skip(i as int).drop_first() =~= fr.variables@.skip(i + 1));
        }
        if hit {
            break;
        }
        i += 1;
    }
    if i < fr.variables.len() {
        Some(clone_value(&fr.variables[i].1))
    } else {
        None
    }
}

/// Character-wise equality of a string slice and an owned string.
fn str_eq_string(a: &str, b: &String) -> (r: bool)
    ensures
        r == (a@ == b@),
{
    a.to_owned().eq(b)
}

broadcast use vstd::seq::axiom_seq_index_decreases, vstd::seq::axiom_seq_subrange_decreases,
    vstd::std_specs::vec::axiom_vec_decreases_to_view;


// ------------------------------------------------------------------
// Ghost mirror of evaluation
// ------------------------------------------------------------------
//
// Evaluation is mirrored as a partial function over the AST views: the
// returned `Option` is `None` exactly when a clock value was read (the
// one source of nondeterminism), in which case nothing further is
// specified; on `Some` the result, the environment and the printed
// output are fixed. Statements also thread the loop step budget;
// expressions cannot loop and need none.

/// Expression-level state: the mirrored environment and printed output.
#[verifier::ext_equal]
pub struct EStM {
    pub env: Seq<Seq<(Seq<char>, ValueM)>>,
    pub out: Seq<ValueM>,
}

pub open spec fn truthy_m(v: ValueM) -> bool {
    match v {
        ValueM::Bool(b) => b,
        ValueM::Nil => false,
        _ => true,
    }
}

/// The strict binary operators over mirrored values. `and`/`or` do not
/// reach this table: they short-circuit in `ev_expr`.
pub open spec fn ev_binop(op: BinaryOperator, a: ValueM, b: ValueM) -> Result<
    ValueM,
    RuntimeError,
> {
    match op {
        BinaryOperator::Addition => match (a, b) {
            (ValueM::Num(x), ValueM::Num(y)) => Ok(ValueM::Num(add_bits(x, y))),
            (ValueM::Str(x), ValueM::Str(y)) => Ok(ValueM::Str(x + y)),
            _ => Err(RuntimeError::TypeError),
        },
        BinaryOperator::Subtraction => match (a, b) {
            (ValueM::Num(x), ValueM::Num(y)) => Ok(ValueM::Num(sub_bits(x, y))),
            _ => Err(RuntimeError::TypeError),
        },
        BinaryOperator::Multiplication => match (a, b) {
            (ValueM::Num(x), ValueM::Num(y)) => Ok(ValueM::Num(mul_bits(x, y))),
            _ => Err(RuntimeError::TypeError),
        },
        BinaryOperator::Division => match (a, b) {
            (ValueM::Num(x), ValueM::Num(y)) => Ok(ValueM::Num(div_bits(x, y))),
            _ => Err(RuntimeError::TypeError),
        },
        BinaryOperator::Equality => match (a, b) {
            (ValueM::Num(x), ValueM::Num(y)) => Ok(ValueM::Bool(eq_bits(x, y))),
            (ValueM::Bool(x), ValueM::Bool(y)) => Ok(ValueM::Bool(x == y)),
            _ => Err(RuntimeError::TypeError),
        },
        BinaryOperator::Inequality => match (a, b) {
            (ValueM::Num(x), ValueM::Num(y)) => Ok(ValueM::Bool(!eq_bits(x, y))),
            (ValueM::Bool(x), ValueM::Bool(y)) => Ok(ValueM::Bool(x != y)),
            _ => Err(RuntimeError::TypeError),
        },
        BinaryOperator::GreaterThan => match (a, b) {
            (ValueM::Num(x), ValueM::Num(y)) => Ok(ValueM::Bool(lt_bits(y, x))),
            _ => Err(RuntimeError::TypeError),
        },
        BinaryOperator::GreaterThanOrEqualTo => match (a, b) {
            (ValueM::Num(x), ValueM::Num(y)) => Ok(ValueM::Bool(le_bits(y, x))),
            _ => Err(RuntimeError::TypeError),
        },
        BinaryOperator::LessThan => match (a, b) {
            (ValueM::Num(x), ValueM::Num(y)) => Ok(ValueM::Bool(lt_bits(x, y))),
            _ => Err(RuntimeError::TypeError),
        },
        BinaryOperator::LessThanOrEqualTo => match (a, b) {
            (ValueM::Num(x), ValueM::Num(y)) => Ok(ValueM::Bool(le_bits(x, y))),
            _ => Err(RuntimeError::TypeError),
        },
        BinaryOperator::And => Err(RuntimeError::TypeError),
        BinaryOperator::Or => Err(RuntimeError::TypeError),
    }
}

/// One expression: its value and the state after it.
pub open spec fn ev_expr(e: ExprM, st: EStM) -> Option<(Result<ValueM, RuntimeError>, EStM)>
    decreases e,
{
    match e {
        ExprM::Assign { name, value } => match ev_expr(*value, st) {
            None => None,
            Some((Err(er), st1)) => Some((Err(er), st1)),
            Some((Ok(v), st1)) => match env_assign_m(st1.env, name, v) {
                Ok(env2) => Some((Ok(v), EStM { env: env2, out: st1.out })),
                Err(er) => Some((Err(er), st1)),
            },
        },
        ExprM::Unary(op, r) => match ev_expr(*r, st) {
            None => None,
            Some((Err(er), st1)) => Some((Err(er), st1)),
            Some((Ok(v), st1)) => match op {
                UnaryOperator::Negate => match v {
                    ValueM::Num(b) => Some((Ok(ValueM::Num(neg_bits(b))), st1)),
                    _ => Some((Err(RuntimeError::TypeError), st1)),
                },
                UnaryOperator::Not => match v {
                    ValueM::Bool(b) => Some((Ok(ValueM::Bool(!b)), st1)),
                    _ => Some((Err(RuntimeError::TypeError), st1)),
                },
            },
        },
        ExprM::Binary(l, op, r) => match op {
            BinaryOperator::And => match ev_expr(*l, st) {
                None => None,
                Some((Err(er), st1)) => Some((Err(er), st1)),
                Some((Ok(lv), st1)) => match lv {
                    ValueM::Bool(lb) => if !lb {
                        Some((Ok(ValueM::Bool(false)), st1))
                    } else {
                        match ev_expr(*r, st1) {
                            None => None,
                            Some((Err(er), st2)) => Some((Err(er), st2)),
                            Some((Ok(rv), st2)) => match rv {
                                ValueM::Bool(rb) => Some((Ok(ValueM::Bool(rb)), st2)),
                                _ => Some((Err(RuntimeError::TypeError), st2)),
                            },
                        }
                    },
                    _ => Some((Err(RuntimeError::TypeError), st1)),
                },
            },
            BinaryOperator::Or => match ev_expr(*l, st) {
                None => None,
                Some((Err(er), st1)) => Some((Err(er), st1)),
                Some((Ok(lv), st1)) => match lv {
                    ValueM::Bool(lb) => if lb {
                        Some((Ok(ValueM::Bool(true)), st1))
                    } else {
                        match ev_expr(*r, st1) {
                            None => None,
                            Some((Err(er), st2)) => Some((Err(er), st2)),
                            Some((Ok(rv), st2)) => match rv {
                                ValueM::Bool(rb) => Some((Ok(ValueM::Bool(rb)), st2)),
                                _ => Some((Err(RuntimeError::TypeError), st2)),
                            },
                        }
                    },
                    _ => Some((Err(RuntimeError::TypeError), st1)),
                },
            },
            _ => match ev_expr(*l, st) {
                None => None,
                Some((Err(er), st1)) => Some((Err(er), st1)),
                Some((Ok(lv), st1)) => match ev_expr(*r, st1) {
                    None => None,
                    Some((Err(er), st2)) => Some((Err(er), st2)),
                    Some((Ok(rv), st2)) => Some((ev_binop(op, lv, rv), st2)),
                },
            },
        },
        ExprM::Primary(p) => ev_prim(p, st),
    }
}

/// One primary expression. A call checks its target and arity; one
/// that reaches its native application reads the clock, so evaluation
/// from that point on is unspecified (`None`).
pub open spec fn ev_prim(p: PrimM, st: EStM) -> Option<(Result<ValueM, RuntimeError>, EStM)>
    decreases p,
{
    match p {
        PrimM::True => Some((Ok(ValueM::Bool(true)), st)),
        PrimM::False => Some((Ok(ValueM::Bool(false)), st)),
        PrimM::Nil => Some((Ok(ValueM::Nil), st)),
        PrimM::Num(b) => Some((Ok(ValueM::Num(b)), st)),
        PrimM::Str(sq) => Some((Ok(ValueM::Str(sq)), st)),
        PrimM::Ident(n) => match elm(st.env, n) {
            Some(v) => Some((Ok(v), st)),
            None => Some((Err(RuntimeError::VariableDoesNotExist), st)),
        },
        PrimM::Grouping(e) => ev_expr(*e, st),
        PrimM::Call { callee, args } => match ev_prim(*callee, st) {
            None => None,
            Some((Err(er), st1)) => Some((Err(er), st1)),
            Some((Ok(cv), st1)) => match cv {
                ValueM::Call { arity, function } => if arity != args.len() {
                    Some((Err(RuntimeError::WrongNumberOfArguments), st1))
                } else {
                    None
                },
                _ => Some((Err(RuntimeError::NotCallable), st1)),
            },
        },
    }
}

/// A variable declaration: the initializer (or nil), then the binding.
pub open spec fn ev_vd(vd: VarDeclM, st: EStM) -> Option<(Result<(), RuntimeError>, EStM)> {
    match vd.init {
        Some(e) => match ev_expr(e, st) {
            None => None,
            Some((Err(er), st1)) => Some((Err(er), st1)),
            Some((Ok(v), st1)) => match env_declare_m(st1.env, vd.name, v) {
                Ok(env2) => Some((Ok(()), EStM { env: env2, out: st1.out })),
                Err(er) => Some((Err(er), st1)),
            },
        },
        None => match env_declare_m(st.env, vd.name, ValueM::Nil) {
            Ok(env2) => Some((Ok(()), EStM { env: env2, out: st.out })),
            Err(er) => Some((Err(er), st)),
        },
    }
}

/// One statement, threading the loop step budget.
pub open spec fn ev_stmt(s: StmtM, st: EStM, fuel: nat) -> Option<(Result<(), RuntimeError>, EStM, nat)>
    decreases fuel, s,
{
    match s {
        StmtM::Expr(e) => match ev_expr(e, st) {
            None => None,
            Some((Err(er), st1)) => Some((Err(er), st1, fuel)),
            Some((Ok(_), st1)) => Some((Ok(()), st1, fuel)),
        },
        StmtM::Print(e) => match ev_expr(e, st) {
            None => None,
            Some((Err(er), st1)) => Some((Err(er), st1, fuel)),
            Some((Ok(v), st1)) => Some((
                Ok(()),
                EStM { env: st1.env, out: st1.out.push(v) },
                fuel,
            )),
        },
        StmtM::If { cond, then, els } => match ev_expr(cond, st) {
            None => None,
            Some((Err(er), st1)) => Some((Err(er), st1, fuel)),
            Some((Ok(v), st1)) => if truthy_m(v) {
                ev_stmt(*then, st1, fuel)
            } else {
                match els {
                    Some(e) => ev_stmt(*e, st1, fuel),
                    None => Some((Ok(()), st1, fuel)),
                }
            },
        },
        StmtM::While { cond, body } => match ev_expr(cond, st) {
            None => None,
            Some((Err(er), st1)) => Some((Err(er), st1, fuel)),
            Some((Ok(v), st1)) => if !truthy_m(v) {
                Some((Ok(()), st1, fuel))
            } else if fuel == 0 {
                Some((Err(RuntimeError::ExecutionLimitReached), st1, fuel))
            } else {
                match ev_stmt(*body, st1, (fuel - 1) as nat) {
                    None => None,
                    Some((Err(er), st2, f2)) => Some((Err(er), st2, f2)),
                    Some((Ok(_), st2, f2)) => if f2 < fuel {
                        ev_stmt(StmtM::While { cond, body }, st2, f2)
                    } else {
                        Some((Err(RuntimeError::ExecutionLimitReached), st2, f2))
                    },
                }
            },
        },
        StmtM::For { init, cond, inc, body } => {
            let stp = EStM { env: st.env.push(seq![]), out: st.out };
            match ev_vd(init, stp) {
                None => None,
                Some((Err(er), st1)) => Some((
                    Err(er),
                    EStM { env: st1.env.drop_last(), out: st1.out },
                    fuel,
                )),
                Some((Ok(_), st1)) => match ev_for(cond, inc, *body, st1, fuel) {
                    None => None,
                    Some((r2, st2, f2)) => Some((
                        r2,
                        EStM { env: st2.env.drop_last(), out: st2.out },
                        f2,
                    )),
                },
            }
        },
        StmtM::Block(ds) => {
            let stp = EStM { env: st.env.push(seq![]), out: st.out };
            match ev_decls(ds, stp, fuel) {
                None => None,
                Some((r2, st2, f2)) => Some((
                    r2,
                    EStM { env: st2.env.drop_last(), out: st2.out },
                    f2,
                )),
            }
        },
    }
}

/// Rounds of a for loop: condition, body, increment, again.
pub open spec fn ev_for(
    cond: Option<ExprM>,
    inc: Option<ExprM>,
    body: StmtM,
    st: EStM,
    fuel: nat,
) -> Option<(Result<(), RuntimeError>, EStM, nat)>
    decreases fuel, body,
{
    let cr = match cond {
        Some(ce) => ev_expr(ce, st),
        None => Some((Ok(ValueM::Bool(true)), st)),
    };
    match cr {
        None => None,
        Some((Err(er), st1)) => Some((Err(er), st1, fuel)),
        Some((Ok(v), st1)) => if !truthy_m(v) {
            Some((Ok(()), st1, fuel))
        } else if fuel == 0 {
            Some((Err(RuntimeError::ExecutionLimitReached), st1, fuel))
        } else {
            match ev_stmt(body, st1, (fuel - 1) as nat) {
                None => None,
                Some((Err(er), st2, f2)) => Some((Err(er), st2, f2)),
                Some((Ok(_), st2, f2)) => {
                    let ir = match inc {
                        Some(ie) => ev_expr(ie, st2),
                        None => Some((Ok(ValueM::Nil), st2)),
                    };
                    match ir {
                        None => None,
                        Some((Err(er), st3)) => Some((Err(er), st3, f2)),
                        Some((Ok(_), st3)) => if f2 < fuel {
                            ev_for(cond, inc, body, st3, f2)
                        } else {
                            Some((Err(RuntimeError::ExecutionLimitReached), st3, f2))
                        },
                    }
                },
            }
        },
    }
}

/// One declaration.
pub open spec fn ev_decl(d: DeclM, st: EStM, fuel: nat) -> Option<(Result<(), RuntimeError>, EStM, nat)>
    decreases fuel, d,
{
    match d {
        DeclM::VarDecl(vd) => match ev_vd(vd, st) {
            None => None,
            Some((r, st1)) => Some((r, st1, fuel)),
        },
        DeclM::Stmt(s) => ev_stmt(s, st, fuel),
    }
}

/// Declarations in order, fail-fast: the first error ends evaluation.
pub open spec fn ev_decls(ds: Seq<DeclM>, st: EStM, fuel: nat) -> Option<(Result<(), RuntimeError>, EStM, nat)>
    decreases fuel, ds,
{
    if ds.len() == 0 {
        Some((Ok(()), st, fuel))
    } else {
        match ev_decl(ds[0], st, fuel) {
            None => None,
            Some((Err(er), st1, f1)) => Some((Err(er), st1, f1)),
            Some((Ok(_), st1, f1)) => if f1 <= fuel {
                ev_decls(ds.drop_first(), st1, f1)
            } else {
                Some((Ok(()), st1, f1))
            },
        }
    }
}


/// The mirror of a value has the constructor of the value.
proof fn lemma_value_shapes(v: Value)
    ensures
        v is Numeric <==> v@ is Num,
        v is String_ <==> v@ is Str,
        v is Boolean <==> v@ is Bool,
        v is Callable <==> v@ is Call,
        v is Nil <==> v@ is Nil,
{
    match v {
        Value::Numeric(b) => {
            assert(v@ == ValueM::Num(b));
        },
        Value::String_(sv) => {
            assert(v@ == ValueM::Str(sv@));
        },
        Value::Boolean(b) => {
            assert(v@ == ValueM::Bool(b));
        },
        Value::Callable(c) => {
            assert(v@ == (ValueM::Call { arity: c.arity as int, function: c.function }));
        },
        Value::Nil => {
            assert(v@ == ValueM::Nil);
        },
    }
}

/// Evaluates one expression. Expressions cannot loop, so they need no
/// step budget; they neither open nor close scopes.
#[verifier::rlimit(100)]
fn eval_expression(e: &Expression, env: &mut Environment, out: &mut Vec<Value>) -> (r: Result<
    Value,
    RuntimeError,
>)
    requires
        old(env)@.len() > 0,
    ensures
        final(env)@.len() == old(env)@.len(),
        ({
            let pre = EStM { env: em(old(env)@), out: vout(old(out)@) };
            match ev_expr(view_expr(*e), pre) {
                Some((rm, stm)) => em(final(env)@) == stm.env && vout(final(out)@) == stm.out
                    && (match r {
                    Ok(v) => rm == Ok::<ValueM, RuntimeError>(v@),
                    Err(er) => rm == Err::<ValueM, RuntimeError>(er),
                }),
                None => true,
            }
        }),
    decreases *e,
{
    match e {
        Expression::Assignment { identifier, value } => {
            let v = match eval_expression(value, env, out) {
                Ok(v) => v,
                Err(er) => {
                    return Err(er);
                },
            };
            let copy = clone_value(&v);
            match env.assign_variable(identifier.as_str(), copy) {
                Ok(_) => Ok(v),
                Err(er) => Err(er),
            }
        },
        Expression::Unary(u) => {
            let v = match eval_expression(&u.right, env, out) {
                Ok(v) => v,
                Err(er) => {
                    return Err(er);
                },
            };
            match u.operator {
                UnaryOperator::Negate => match v {
                    Value::Numeric(b) => Ok(Value::Numeric(negate_bits(b))),
                    _ => Err(RuntimeError::TypeError),
                },
                UnaryOperator::Not => match v {
                    Value::Boolean(b) => Ok(Value::Boolean(!b)),
                    _ => Err(RuntimeError::TypeError),
                },
            }
        },
        Expression::Binary(b) => eval_binary(b, env, out),
        Expression::Primary(p) => eval_primary(p, env, out),
    }
}

/// Evaluates a binary expression. `and` and `or` short-circuit on a
/// boolean left operand; both operands and the result must be boolean.
/// `+` adds numbers or concatenates strings; the other arithmetic and
/// ordering operators take numbers; `==` and `!=` compare two numbers or
/// two booleans, and any other operand shapes are type errors.
#[verifier::rlimit(100)]
fn eval_binary(b: &Binary, env: &mut Environment, out: &mut Vec<Value>) -> (r: Result<
    Value,
    RuntimeError,
>)
    requires
        old(env)@.len() > 0,
    ensures
        final(env)@.len() == old(env)@.len(),
        ({
            let pre = EStM { env: em(old(env)@), out: vout(old(out)@) };
            match ev_expr(view_expr(Expression::Binary(*b)), pre) {
                Some((rm, stm)) => em(final(env)@) == stm.env && vout(final(out)@) == stm.out
                    && (match r {
                    Ok(v) => rm == Ok::<ValueM, RuntimeError>(v@),
                    Err(er) => rm == Err::<ValueM, RuntimeError>(er),
                }),
                None => true,
            }
        }),
    decreases *b,
{
    match b.operator {
        BinaryOperator::And => {
            let lhs = match eval_expression(&b.left, env, out) {
                Ok(v) => v,
                Err(er) => {
                    return Err(er);
                },
            };
            match lhs {
                Value::Boolean(lb) => {
                    if !lb {
                        Ok(Value::Boolean(false))
                    } else {
                        let rhs = match eval_expression(&b.right, env, out) {
                            Ok(v) => v,
                            Err(er) => {
                                return Err(er);
                            },
                        };
                        match rhs {
                            Value::Boolean(rb) => Ok(Value::Boolean(rb)),
                            _ => Err(RuntimeError::TypeError),
                        }
                    }
                },
                _ => Err(RuntimeError::TypeError),
            }
        },
        BinaryOperator::Or => {
            let lhs = match eval_expression(&b.left, env, out) {
                Ok(v) => v,
                Err(er) => {
                    return Err(er);
                },
            };
            match lhs {
                Value::Boolean(lb) => {
                    if lb {
                        Ok(Value::Boolean(true))
                    } else {
                        let rhs = match eval_expression(&b.right, env, out) {
                            Ok(v) => v,
                            Err(er) => {
                                return Err(er);
                            },
                        };
                        match rhs {
                            Value::Boolean(rb) => Ok(Value::Boolean(rb)),
                            _ => Err(RuntimeError::TypeError),
                        }
                    }
                },
                _ => Err(RuntimeError::TypeError),
            }
        },
        _ => {
            let lhs = match eval_expression(&b.left, env, out) {
                Ok(v) => v,
                Err(er) => {
                    return Err(er);
                },
            };
            let rhs = match eval_expression(&b.right, env, out) {
                Ok(v) => v,
                Err(er) => {
                    return Err(er);
                },
            };
            match b.operator {
                BinaryOperator::Addition => match (lhs, rhs) {
                    (Value::Numeric(a), Value::Numeric(c)) => Ok(Value::Numeric(num_add(a, c))),
                    (Value::String_(a), Value::String_(c)) => Ok(
                        Value::String_(a.concat(c.as_str())),
                    ),
                    _ => Err(RuntimeError::TypeError),
                },
                BinaryOperator::Subtraction => match (lhs, rhs) {
                    (Value::Numeric(a), Value::Numeric(c)) => Ok(Value::Numeric(num_sub(a, c))),
                    _ => Err(RuntimeError::TypeError),
                },
                BinaryOperator::Multiplication => match (lhs, rhs) {
                    (Value::Numeric(a), Value::Numeric(c)) => Ok(Value::Numeric(num_mul(a, c))),
                    _ => Err(RuntimeError::TypeError),
                },
                BinaryOperator::Division => match (lhs, rhs) {
                    (Value::Numeric(a), Value::Numeric(c)) => Ok(Value::Numeric(num_div(a, c))),
                    _ => Err(RuntimeError::TypeError),
                },
                BinaryOperator::Equality => match (lhs, rhs) {
                    (Value::Numeric(a), Value::Numeric(c)) => Ok(Value::Boolean(num_eq(a, c))),
                    (Value::Boolean(a), Value::Boolean(c)) => Ok(Value::Boolean(a == c)),
                    _ => Err(RuntimeError::TypeError),
                },
                BinaryOperator::Inequality => match (lhs, rhs) {
                    (Value::Numeric(a), Value::Numeric(c)) => Ok(Value::Boolean(!num_eq(a, c))),
                    (Value::Boolean(a), Value::Boolean(c)) => Ok(Value::Boolean(a != c)),
                    _ => Err(RuntimeError::TypeError),
                },
                BinaryOperator::GreaterThan => match (lhs, rhs) {
                    (Value::Numeric(a), Value::Numeric(c)) => Ok(Value::Boolean(num_lt(c, a))),
                    _ => Err(RuntimeError::TypeError),
                },
                BinaryOperator::GreaterThanOrEqualTo => match (lhs, rhs) {
                    (Value::Numeric(a), Value::Numeric(c)) => Ok(Value::Boolean(num_le(c, a))),
                    _ => Err(RuntimeError::TypeError),
                },
                BinaryOperator::LessThan => match (lhs, rhs) {
                    (Value::Numeric(a), Value::Numeric(c)) => Ok(Value::Boolean(num_lt(a, c))),
                    _ => Err(RuntimeError::TypeError),
                },
                BinaryOperator::LessThanOrEqualTo => match (lhs, rhs) {
                    (Value::Numeric(a), Value::Numeric(c)) => Ok(Value::Boolean(num_le(a, c))),
                    _ => Err(RuntimeError::TypeError),
                },
                _ => Err(RuntimeError::TypeError),
            }
        },
    }
}

/// Evaluates a primary expression. A call checks that its target is
/// callable and its arity matches before evaluating the arguments.
#[verifier::rlimit(100)]
#[verifier::loop_isolation(false)]
fn eval_primary(p: &Primary, env: &mut Environment, out: &mut Vec<Value>) -> (r: Result<
    Value,
    RuntimeError,
>)
    requires
        old(env)@.len() > 0,
    ensures
        final(env)@.len() == old(env)@.len(),
        ({
            let pre = EStM { env: em(old(env)@), out: vout(old(out)@) };
            match ev_prim(view_prim(*p), pre) {
                Some((rm, stm)) => em(final(env)@) == stm.env && vout(final(out)@) == stm.out
                    && (match r {
                    Ok(v) => rm == Ok::<ValueM, RuntimeError>(v@),
                    Err(er) => rm == Err::<ValueM, RuntimeError>(er),
                }),
                None => true,
            }
        }),
    decreases *p,
{
    match p {
        Primary::True => Ok(Value::Boolean(true)),
        Primary::False => Ok(Value::Boolean(false)),
        Primary::Nil => Ok(Value::Nil),
        Primary::Number(bits) => Ok(Value::Numeric(*bits)),
        Primary::String_(s) => Ok(Value::String_(s.clone())),
        Primary::Identifier(name) => match env.lookup_variable(name.as_str()) {
            Some(v) => Ok(v),
            None => Err(RuntimeError::VariableDoesNotExist),
        },
        Primary::Grouping(e) => eval_expression(e, env, out),
        Primary::Call { callable, arguments } => {
            proof {
                assert(view_prim(*p) == (PrimM::Call {
                    callee: Box::new(view_prim(**callable)),
                    args: view_expr_seq(arguments@),
                }));
                lemma_view_expr_seq_props(arguments@);
            }
            let cv = match eval_primary(callable, env, out) {
                Ok(v) => v,
                Err(er) => {
                    return Err(er);
                },
            };
            proof {
                lemma_value_shapes(cv);
            }
            let c = match cv {
                Value::Callable(c) => c,
                _ => {
                    return Err(RuntimeError::NotCallable);
                },
            };
            if c.arity() != arguments.len() {
                return Err(RuntimeError::WrongNumberOfArguments);
            }
            let mut args: Vec<Value> = Vec::new();
            let mut i: usize = 0;
            while i < arguments.len()
                invariant
                    env@.len() == old(env)@.len(),
                    old(env)@.len() > 0,
                    i <= arguments@.len(),
                decreases arguments@.len() - i,
            {
                let v = match eval_expression(&arguments[i], env, out) {
                    Ok(v) => v,
                    Err(er) => {
                        return Err(er);
                    },
                };
                args.push(v);
                i += 1;
            }
            Ok(c.call(&args))
        },
    }
}

/// Evaluates a while statement.
#[verifier::rlimit(100)]
#[verifier::spinoff_prover]
#[verifier::loop_isolation(false)]
fn eval_while(
    condition: &Expression,
    body: &Statement,
    env: &mut Environment,
    out: &mut Vec<Value>,
    fuel: &mut u64,
) -> (r: Result<(), RuntimeError>)
    requires
        old(env)@.len() > 0,
    ensures
        final(env)@.len() == old(env)@.len(),
        *final(fuel) <= *old(fuel),
        ({
            let pre = EStM { env: em(old(env)@), out: vout(old(out)@) };
            let sv = StmtM::While {
                cond: view_expr(*condition),
                body: Box::new(view_stmt(*body)),
            };
            match ev_stmt(sv, pre, *old(fuel) as nat) {
                Some((rm, stm, fm_)) => em(final(env)@) == stm.env && vout(final(out)@)
                    == stm.out && *final(fuel) as nat == fm_ && (match r {
                    Ok(_) => rm is Ok,
                    Err(er) => rm == Err::<(), RuntimeError>(er),
                }),
                None => true,
            }
        }),
    decreases *old(fuel), *body,
{
    let ghost prem = EStM { env: em(old(env)@), out: vout(old(out)@) };
    let ghost sv = StmtM::While { cond: view_expr(*condition), body: Box::new(view_stmt(*body)) };
    let ghost fuel0 = *old(fuel) as nat;
    loop
        invariant
            env@.len() == old(env)@.len(),
            old(env)@.len() > 0,
            *fuel <= *old(fuel),
            ev_stmt(sv, prem, fuel0) is Some ==> ev_stmt(sv, prem, fuel0) == ev_stmt(
                sv,
                EStM { env: em(env@), out: vout(out@) },
                *fuel as nat,
            ),
        decreases *fuel,
    {
        let ghost headm = EStM { env: em(env@), out: vout(out@) };
        let ghost headfuel = *fuel as nat;
        let cv = match eval_expression(condition, env, out) {
            Ok(v) => v,
            Err(er) => {
                return Err(er);
            },
        };
        if !is_truthy(&cv) {
            return Ok(());
        }
        if *fuel == 0 {
            return Err(RuntimeError::ExecutionLimitReached);
        }
        *fuel = *fuel - 1;
        match eval_statement(body, env, out, fuel) {
            Ok(_) => {},
            Err(er) => {
                return Err(er);
            },
        }
        proof {
            if ev_stmt(sv, prem, fuel0) is Some {
                assert(ev_stmt(sv, headm, headfuel) == ev_stmt(
                    sv,
                    EStM { env: em(env@), out: vout(out@) },
                    *fuel as nat,
                ));
            }
        }
    }
}

/// Evaluates a for statement: its own frame holds the initializer and is
/// closed on every exit.
#[verifier::rlimit(100)]
#[verifier::spinoff_prover]
#[verifier::loop_isolation(false)]
fn eval_for(
    initializer: &ForLoopInitializer,
    condition: &Option<Expression>,
    increment: &Option<Expression>,
    body: &Statement,
    env: &mut Environment,
    out: &mut Vec<Value>,
    fuel: &mut u64,
) -> (r: Result<(), RuntimeError>)
    requires
        old(env)@.len() > 0,
    ensures
        final(env)@.len() == old(env)@.len(),
        *final(fuel) <= *old(fuel),
        ({
            let pre = EStM { env: em(old(env)@), out: vout(old(out)@) };
            let sv = StmtM::For {
                init: initializer.deep_view(),
                cond: match condition {
                    Some(c) => Some(view_expr(*c)),
                    None => None,
                },
                inc: match increment {
                    Some(c) => Some(view_expr(*c)),
                    None => None,
                },
                body: Box::new(view_stmt(*body)),
            };
            match ev_stmt(sv, pre, *old(fuel) as nat) {
                Some((rm, stm, fm_)) => em(final(env)@) == stm.env && vout(final(out)@)
                    == stm.out && *final(fuel) as nat == fm_ && (match r {
                    Ok(_) => rm is Ok,
                    Err(er) => rm == Err::<(), RuntimeError>(er),
                }),
                None => true,
            }
        }),
    decreases *old(fuel), *body,
{
    let ghost prem = EStM { env: em(old(env)@), out: vout(old(out)@) };
    let ghost cvv: Option<ExprM> = match condition {
        Some(c) => Some(view_expr(*c)),
        None => None,
    };
    let ghost ivv: Option<ExprM> = match increment {
        Some(c) => Some(view_expr(*c)),
        None => None,
    };
    let ghost bvv = view_stmt(*body);
    let ghost sv = StmtM::For {
        init: initializer.deep_view(),
        cond: cvv,
        inc: ivv,
        body: Box::new(bvv),
    };
    let ghost fuel0 = *old(fuel) as nat;
    env.push();
    proof {
        assert(em(env@) =~~= prem.env.push(seq![]));
    }
    match initializer {
        ForLoopInitializer::Declaration(vd) => {
            proof {
                assert(initializer.deep_view() == view_vardecl(*vd));
            }
            match eval_vardecl(vd, env, out) {
                Ok(_) => {},
                Err(er) => {
                    let ghost e1 = em(env@);
                    env.pop();
                    proof {
                        assert(em(env@) =~= e1.drop_last());
                    }
                    return Err(er);
                },
            }
        },
    }
    let ghost initm = EStM { env: em(env@), out: vout(out@) };
    loop
        invariant
            env@.len() == old(env)@.len() + 1,
            old(env)@.len() > 0,
            *fuel <= *old(fuel),
            ev_stmt(sv, prem, fuel0) is Some ==> ev_for(cvv, ivv, bvv, initm, fuel0) == ev_for(
                cvv,
                ivv,
                bvv,
                EStM { env: em(env@), out: vout(out@) },
                *fuel as nat,
            ),
            ev_stmt(sv, prem, fuel0) is Some ==> ev_stmt(sv, prem, fuel0) == (match ev_for(
                cvv,
                ivv,
                bvv,
                initm,
                fuel0,
            ) {
                None => None,
                Some((r2, st2, f2)) => Some((
                    r2,
                    EStM { env: st2.env.drop_last(), out: st2.out },
                    f2,
                )),
            }),
        decreases *fuel,
    {
        let ghost headm = EStM { env: em(env@), out: vout(out@) };
        let ghost headfuel = *fuel as nat;
        let cv = match condition {
            Some(c) => match eval_expression(c, env, out) {
                Ok(v) => v,
                Err(er) => {
                    let ghost e1 = em(env@);
                    env.pop();
                    proof {
                        assert(em(env@) =~= e1.drop_last());
                    }
                    return Err(er);
                },
            },
            None => Value::Boolean(true),
        };
        if !is_truthy(&cv) {
            let ghost e1 = em(env@);
            env.pop();
            proof {
                assert(em(env@) =~= e1.drop_last());
            }
            return Ok(());
        }
        if *fuel == 0 {
            let ghost e1 = em(env@);
            env.pop();
            proof {
                assert(em(env@) =~= e1.drop_last());
            }
            return Err(RuntimeError::ExecutionLimitReached);
        }
        *fuel = *fuel - 1;
        match eval_statement(body, env, out, fuel) {
            Ok(_) => {},
            Err(er) => {
                let ghost e1 = em(env@);
                env.pop();
                proof {
                    assert(em(env@) =~= e1.drop_last());
                }
                return Err(er);
            },
        }
        match increment {
            Some(inc) => {
                match eval_expression(inc, env, out) {
                    Ok(_) => {},
                    Err(er) => {
                        let ghost e1 = em(env@);
                        env.pop();
                        proof {
                            assert(em(env@) =~= e1.drop_last());
                        }
                        return Err(er);
                    },
                }
            },
            None => {},
        }
        proof {
            if ev_stmt(sv, prem, fuel0) is Some {
                assert(ev_for(cvv, ivv, bvv, headm, headfuel) == ev_for(
                    cvv,
                    ivv,
                    bvv,
                    EStM { env: em(env@), out: vout(out@) },
                    *fuel as nat,
                ));
            }
        }
    }
}

/// Evaluates a block: a fresh frame around its declarations, closed on
/// every exit.
#[verifier::rlimit(100)]
#[verifier::spinoff_prover]
#[verifier::loop_isolation(false)]
fn eval_block(b: &Block, env: &mut Environment, out: &mut Vec<Value>, fuel: &mut u64) -> (r:
    Result<(), RuntimeError>)
    requires
        old(env)@.len() > 0,
    ensures
        final(env)@.len() == old(env)@.len(),
        *final(fuel) <= *old(fuel),
        ({
            let pre = EStM { env: em(old(env)@), out: vout(old(out)@) };
            match ev_stmt(StmtM::Block(b.deep_view()), pre, *old(fuel) as nat) {
                Some((rm, stm, fm_)) => em(final(env)@) == stm.env && vout(final(out)@)
                    == stm.out && *final(fuel) as nat == fm_ && (match r {
                    Ok(_) => rm is Ok,
                    Err(er) => rm == Err::<(), RuntimeError>(er),
                }),
                None => true,
            }
        }),
    decreases *old(fuel), *b,
{
    let ghost prem = EStM { env: em(old(env)@), out: vout(old(out)@) };
    let ghost dsv = view_decl_seq(b.statements@);
    let ghost fuel0 = *old(fuel) as nat;
    proof {
        lemma_view_decl_seq_props(b.statements@);
    }
    env.push();
    proof {
        assert(em(env@) =~~= prem.env.push(seq![]));
    }
    let ghost stpm = EStM { env: em(env@), out: vout(out@) };
    let mut i: usize = 0;
    proof {
        assert(dsv.skip(0) =~= dsv);
    }
    while i < b.statements.len()
        invariant
            env@.len() == old(env)@.len() + 1,
            old(env)@.len() > 0,
            i <= b.statements@.len(),
            *fuel <= *old(fuel),
            ev_decls(dsv, stpm, fuel0) is Some ==> ev_decls(dsv, stpm, fuel0) == ev_decls(
                dsv.skip(i as int),
                EStM { env: em(env@), out: vout(out@) },
                *fuel as nat,
            ),
        decreases b.statements@.len() - i,
    {
        let ghost headm = EStM { env: em(env@), out: vout(out@) };
        let ghost headfuel = *fuel as nat;
        proof {
            assert(dsv.skip(i as int)[0] == view_decl(b.statements@[i as int]));
            assert(dsv.skip(i as int).drop_first() =~= dsv.skip(i + 1));
        }
        match eval_declaration(&b.statements[i], env, out, fuel) {
            Ok(_) => {},
            Err(er) => {
                let ghost e1 = em(env@);
                env.pop();
                proof {
                    assert(em(env@) =~= e1.drop_last());
                }
                return Err(er);
            },
        }
        proof {
            if ev_decls(dsv, stpm, fuel0) is Some {
                assert(ev_decls(dsv.skip(i as int), headm, headfuel) == ev_decls(
                    dsv.skip(i + 1),
                    EStM { env: em(env@), out: vout(out@) },
                    *fuel as nat,
                ));
            }
        }
        i += 1;
    }
    proof {
        assert(dsv.skip(i as int) =~= Seq::<DeclM>::empty());
    }
    let ghost e1 = em(env@);
    env.pop();
    proof {
        assert(em(env@) =~= e1.drop_last());
    }
    Ok(())
}

/// Evaluates one statement against a step budget for loops.
#[verifier::rlimit(100)]
#[verifier::spinoff_prover]
fn eval_statement(s: &Statement, env: &mut Environment, out: &mut Vec<Value>, fuel: &mut u64) -> (r:
    Result<(), RuntimeError>)
    requires
        old(env)@.len() > 0,
    ensures
        final(env)@.len() == old(env)@.len(),
        *final(fuel) <= *old(fuel),
        ({
            let pre = EStM { env: em(old(env)@), out: vout(old(out)@) };
            match ev_stmt(view_stmt(*s), pre, *old(fuel) as nat) {
                Some((rm, stm, fm_)) => em(final(env)@) == stm.env && vout(final(out)@)
                    == stm.out && *final(fuel) as nat == fm_ && (match r {
                    Ok(_) => rm is Ok,
                    Err(er) => rm == Err::<(), RuntimeError>(er),
                }),
                None => true,
            }
        }),
    decreases *old(fuel), *s,
{
    let ghost sv = view_stmt(*s);
    match s {
        Statement::ExpressionStatement(e) => {
            proof {
                assert(sv == StmtM::Expr(view_expr(*e)));
            }
            match eval_expression(e, env, out) {
                Ok(_) => Ok(()),
                Err(er) => Err(er),
            }
        },
        Statement::PrintStatement(e) => {
            proof {
                assert(sv == StmtM::Print(view_expr(*e)));
            }
            match eval_expression(e, env, out) {
                Ok(v) => {
                    let ghost ob = vout(out@);
                    let ghost vv = v@;
                    out.push(v);
                    proof {
                        assert(vout(out@) =~= ob.push(vv));
                    }
                    Ok(())
                },
                Err(er) => Err(er),
            }
        },
        Statement::IfStatement { condition, then, else_ } => {
            proof {
                match else_ {
                    Some(bx) => {
                        assert(sv == (StmtM::If {
                            cond: view_expr(*condition),
                            then: Box::new(view_stmt(**then)),
                            els: Some(Box::new(view_stmt(**bx))),
                        }));
                    },
                    None => {
                        assert(sv == (StmtM::If {
                            cond: view_expr(*condition),
                            then: Box::new(view_stmt(**then)),
                            els: None,
                        }));
                    },
                }
            }
            let cv = match eval_expression(condition, env, out) {
                Ok(v) => v,
                Err(er) => {
                    return Err(er);
                },
            };
            if is_truthy(&cv) {
                eval_statement(then, env, out, fuel)
            } else {
                match else_ {
                    Some(e) => eval_statement(e, env, out, fuel),
                    None => Ok(()),
                }
            }
        },
        Statement::WhileStatement { condition, body } => {
            proof {
                assert(sv == (StmtM::While {
                    cond: view_expr(*condition),
                    body: Box::new(view_stmt(**body)),
                }));
            }
            eval_while(condition, body, env, out, fuel)
        },
        Statement::ForStatement { initializer, condition, expression, body } => {
            proof {
                match initializer {
                    ForLoopInitializer::Declaration(vd) => {
                        assert(initializer.deep_view() == view_vardecl(*vd));
                        assert(sv == (StmtM::For {
                            init: view_vardecl(*vd),
                            cond: match condition {
                                Some(c) => Some(view_expr(*c)),
                                None => None,
                            },
                            inc: match expression {
                                Some(c) => Some(view_expr(*c)),
                                None => None,
                            },
                            body: Box::new(view_stmt(**body)),
                        }));
                    },
                }
            }
            eval_for(initializer, condition, expression, body, env, out, fuel)
        },
        Statement::Block(b) => {
            proof {
                assert(sv == StmtM::Block(b.deep_view()));
            }
            eval_block(b, env, out, fuel)
        },
    }
}

/// Evaluates a variable declaration: the initializer (or nil) is bound
/// in the innermost frame.
#[verifier::rlimit(100)]
fn eval_vardecl(vd: &VariableDeclaration, env: &mut Environment, out: &mut Vec<Value>) -> (r:
    Result<(), RuntimeError>)
    requires
        old(env)@.len() > 0,
    ensures
        final(env)@.len() == old(env)@.len(),
        ({
            let pre = EStM { env: em(old(env)@), out: vout(old(out)@) };
            match ev_vd(view_vardecl(*vd), pre) {
                Some((rm, stm)) => em(final(env)@) == stm.env && vout(final(out)@) == stm.out
                    && (match r {
                    Ok(_) => rm is Ok,
                    Err(er) => rm == Err::<(), RuntimeError>(er),
                }),
                None => true,
            }
        }),
    decreases *vd,
{
    proof {
        if vd.value is Some {
            assert(view_vardecl(*vd) == (VarDeclM {
                name: vd.identifier@,
                init: Some(view_expr(vd.value->0)),
            }));
        } else {
            assert(view_vardecl(*vd) == (VarDeclM { name: vd.identifier@, init: None }));
        }
    }
    let v = match &vd.value {
        Some(e) => match eval_expression(e, env, out) {
            Ok(v) => v,
            Err(er) => {
                return Err(er);
            },
        },
        None => Value::Nil,
    };
    match env.declare_variable(vd.identifier.as_str(), v) {
        Ok(_) => Ok(()),
        Err(er) => Err(er),
    }
}

/// Evaluates one declaration.
#[verifier::rlimit(100)]
fn eval_declaration(d: &Declaration, env: &mut Environment, out: &mut Vec<Value>, fuel: &mut u64) -> (r:
    Result<(), RuntimeError>)
    requires
        old(env)@.len() > 0,
    ensures
        final(env)@.len() == old(env)@.len(),
        *final(fuel) <= *old(fuel),
        ({
            let pre = EStM { env: em(old(env)@), out: vout(old(out)@) };
            match ev_decl(view_decl(*d), pre, *old(fuel) as nat) {
                Some((rm, stm, fm_)) => em(final(env)@) == stm.env && vout(final(out)@)
                    == stm.out && *final(fuel) as nat == fm_ && (match r {
                    Ok(_) => rm is Ok,
                    Err(er) => rm == Err::<(), RuntimeError>(er),
                }),
                None => true,
            }
        }),
    decreases *old(fuel), *d,
{
    match d {
        Declaration::VariableDeclaration(vd) => {
            proof {
                assert(view_decl(*d) == DeclM::VarDecl(view_vardecl(*vd)));
            }
            eval_vardecl(vd, env, out)
        },
        Declaration::Statement(s) => {
            proof {
                assert(view_decl(*d) == DeclM::Stmt(view_stmt(*s)));
            }
            eval_statement(s, env, out, fuel)
        },
    }
}

/// Walks a parsed program against a scoped environment, collecting what
/// `print` emits.
pub struct Evaluator {
    pub environment: Environment,
    pub output: Vec<Value>,
}

impl Evaluator {
    /// A fresh evaluator over a fresh global environment.
    pub fn new() -> (r: Evaluator)
        ensures
            r.environment@.len() == 1,
            r.output@.len() == 0,
    {
        Evaluator { environment: Environment::new(), output: Vec::new() }
    }

    /// Evaluates the program's declarations in order, fail-fast: the
    /// first runtime error aborts the rest, and what `print` emits is
    /// appended to `output`. The outcome, final environment and output
    /// follow the evaluation mirror `ev_decls` under the loop step
    /// budget, except for programs that read the clock, whose outcome
    /// the mirror leaves unspecified.
    #[verifier::rlimit(100)]
    #[verifier::spinoff_prover]
    #[verifier::loop_isolation(false)]
    pub fn evaluate(&mut self, ast: &Ast) -> (r: Result<(), RuntimeError>)
        requires
            old(self).environment@.len() > 0,
        ensures
            final(self).environment@.len() == old(self).environment@.len(),
            ({
                let pre = EStM {
                    env: em(old(self).environment@),
                    out: vout(old(self).output@),
                };
                match ev_decls(
                    view_decl_seq(ast.program.declarations@),
                    pre,
                    u64::MAX as nat,
                ) {
                    Some((rm, stm, fm_)) => em(final(self).environment@) == stm.env && vout(
                        final(self).output@,
                    ) == stm.out && (match r {
                        Ok(_) => rm is Ok,
                        Err(er) => rm == Err::<(), RuntimeError>(er),
                    }),
                    None => true,
                }
            }),
    {
        let ghost prem = EStM { env: em(old(self).environment@), out: vout(old(self).output@) };
        let ghost dsv = view_decl_seq(ast.program.declarations@);
        let ghost fuel0 = u64::MAX as nat;
        proof {
            lemma_view_decl_seq_props(ast.program.declarations@);
            assert(dsv.skip(0) =~= dsv);
        }
        let mut fuel: u64 = u64::MAX;
        let mut i: usize = 0;
        while i < ast.program.declarations.len()
            invariant
                self.environment@.len() == old(self).environment@.len(),
                old(self).environment@.len() > 0,
                i <= ast.program.declarations@.len(),
                fuel <= u64::MAX,
                ev_decls(dsv, prem, fuel0) is Some ==> ev_decls(dsv, prem, fuel0) == ev_decls(
                    dsv.skip(i as int),
                    EStM { env: em(self.environment@), out: vout(self.output@) },
                    fuel as nat,
                ),
            decreases ast.program.declarations@.len() - i,
        {
            let ghost headm = EStM { env: em(self.environment@), out: vout(self.output@) };
            let ghost headfuel = fuel as nat;
            proof {
                assert(dsv.skip(i as int)[0] == view_decl(ast.program.declarations@[i as int]));
                assert(dsv.skip(i as int).drop_first() =~= dsv.skip(i + 1));
            }
            match eval_declaration(
                &ast.program.declarations[i],
                &mut self.environment,
                &mut self.output,
                &mut fuel,
            ) {
                Ok(_) => {},
                Err(er) => {
                    return Err(er);
                },
            }
            proof {
                if ev_decls(dsv, prem, fuel0) is Some {
                    assert(ev_decls(dsv.skip(i as int), headm, headfuel) == ev_decls(
                        dsv.skip(i + 1),
                        EStM { env: em(self.environment@), out: vout(self.output@) },
                        fuel as nat,
                    ));
                }
            }
            i += 1;
        }
        proof {
            assert(dsv.skip(i as int) =~= Seq::<DeclM>::empty());
        }
        Ok(())
    }
}


} // verus!
