//! Bytecode compiler and stack-based virtual machine.
//!
//! Every function compiles to a contiguous run of instructions whose entry
//! is recorded before its body is compiled; jumps hold absolute indices.
//! The machine runs one instruction per step over an operand stack shared by
//! all calls and a stack of frames, one per active call.
use vstd::prelude::*;
use crate::ast::{BinOp, Expr, Function, Literal, Program, Stmt};
use crate::text::same_text;

verus! {

/// A run-time value. A float is held as the bits of an IEEE-754 double.
#[derive(Debug, Clone, Copy, PartialEq, Eq, Structural)]
pub enum Value {
    Int(i64),
    Float(u64),
    Void,
}

/// The bits of `-0.0`.
pub const NEGATIVE_ZERO_BITS: u64 = 0x8000_0000_0000_0000;

impl Value {
    /// `Int` zero, a float zero of either sign, and `Void` are false.
    pub open spec fn truthy(self) -> bool {
        match self {
            Value::Int(i) => i != 0,
            Value::Float(bits) => bits != 0 && bits != NEGATIVE_ZERO_BITS,
            Value::Void => false,
        }
    }

    pub fn is_truthy(&self) -> (r: bool)
        ensures
            r == self.truthy(),
    {
        match self {
            Value::Int(i) => *i != 0,
            Value::Float(bits) => *bits != 0 && *bits != NEGATIVE_ZERO_BITS,
            Value::Void => false,
        }
    }
}

/// Bytecode instructions.
#[derive(Debug, Clone, PartialEq)]
pub enum Opcode {
    /// Push a constant.
    LoadConst(Value),
    /// Push the double that a float literal's decimal text denotes.
    LoadFloat(String),
    /// Push a variable of the current frame.
    LoadVar(String),
    /// Pop a value into a variable of the current frame.
    StoreVar(String),
    /// Pop right, then left, and push `left op right`.
    BinaryOp(BinOp),
    /// Continue at an instruction index.
    Jump(usize),
    /// Pop a value; continue at the index when it is false.
    JumpIfFalse(usize),
    /// Call a function by name with the given number of arguments, already
    /// pushed left to right.
    Call(String, usize),
    /// Leave the current frame.
    Return,
    /// Drop the top of the stack.
    Pop,
    /// Stop the machine.
    Halt,
}

/// An instruction as contracts see it.
pub enum Instr {
    LoadConst(Value),
    LoadFloat(Seq<char>),
    LoadVar(Seq<char>),
    StoreVar(Seq<char>),
    BinaryOp(BinOp),
    Jump(int),
    JumpIfFalse(int),
    Call(Seq<char>, int),
    Return,
    Pop,
    Halt,
}

impl View for Opcode {
    type V = Instr;

    open spec fn view(&self) -> Instr {
        match self {
            Opcode::LoadConst(v) => Instr::LoadConst(*v),
            Opcode::LoadFloat(s) => Instr::LoadFloat(s@),
            Opcode::LoadVar(s) => Instr::LoadVar(s@),
            Opcode::StoreVar(s) => Instr::StoreVar(s@),
            Opcode::BinaryOp(op) => Instr::BinaryOp(*op),
            Opcode::Jump(t) => Instr::Jump(*t as int),
            Opcode::JumpIfFalse(t) => Instr::JumpIfFalse(*t as int),
            Opcode::Call(s, n) => Instr::Call(s@, *n as int),
            Opcode::Return => Instr::Return,
            Opcode::Pop => Instr::Pop,
            Opcode::Halt => Instr::Halt,
        }
    }
}

pub open spec fn instrs(code: Seq<Opcode>) -> Seq<Instr> {
    code.map_values(|o: Opcode| o@)
}

// ---------------------------------------------------------------------------
// What the compiler emits

/// The code of an expression: it leaves the expression's value on the stack.
/// A string literal has no run-time value and evaluates to `Void`.
pub open spec fn expr_code(e: Expr) -> Seq<Instr>
    decreases e,
{
    match e {
        Expr::Literal(l) => match l {
            Literal::Int(i) => seq![Instr::LoadConst(Value::Int(i))],
            Literal::Float(text) => seq![Instr::LoadFloat(text@)],
            Literal::String(_) => seq![Instr::LoadConst(Value::Void)],
        },
        Expr::Identifier(name) => seq![Instr::LoadVar(name@)],
        Expr::Binary { left, op, right } => expr_code(*left) + expr_code(*right) + seq![
            Instr::BinaryOp(op),
        ],
        Expr::Call { name, args } => args_code(args, 0) + seq![
            Instr::Call(name@, args.len() as int),
        ],
        Expr::Assignment { name, value } => expr_code(*value) + seq![
            Instr::StoreVar(name@),
            Instr::LoadVar(name@),
        ],
    }
}

/// The code of the arguments from position `i` on, left to right.
pub open spec fn args_code(args: Vec<Expr>, i: int) -> Seq<Instr>
    decreases args, args.len() - i,
{
    if i < 0 || i >= args.len() {
        seq![]
    } else {
        expr_code(args[i]) + args_code(args, i + 1)
    }
}

/// The code of a statement whose first instruction has index `at`.
pub open spec fn stmt_code(s: Stmt, at: int) -> Seq<Instr>
    decreases s,
{
    match s {
        Stmt::Declaration { ty, name, init } => match init {
            Some(e) => expr_code(e) + seq![Instr::StoreVar(name@)],
            None => seq![],
        },
        Stmt::Return(e) => match e {
            Some(x) => expr_code(x) + seq![Instr::Return],
            None => seq![Instr::LoadConst(Value::Void), Instr::Return],
        },
        Stmt::Block(ss) => stmts_code(ss, 0, at),
        Stmt::If { cond, then, else_ } => {
            let c = expr_code(cond);
            let then_at = at + c.len() + 1;
            let t = stmt_code(*then, then_at);
            let else_at = then_at + t.len() + 1;
            let e = match else_ {
                Some(x) => stmt_code(*x, else_at),
                None => seq![],
            };
            c + seq![Instr::JumpIfFalse(else_at)] + t + seq![Instr::Jump(else_at + e.len())] + e
        },
        Stmt::For { init, cond, update, body } => {
            let i = match init {
                Some(x) => stmt_code(*x, at),
                None => seq![],
            };
            let test_at = at + i.len();
            let c = match cond {
                Some(x) => expr_code(x),
                None => seq![],
            };
            let body_at = test_at + c.len() + if cond is Some { 1int } else { 0int };
            let b = stmt_code(*body, body_at);
            let u = match update {
                Some(x) => expr_code(x) + seq![Instr::Pop],
                None => seq![],
            };
            let end = body_at + b.len() + u.len() + 1;
            i + c + (if cond is Some { seq![Instr::JumpIfFalse(end)] } else { seq![] }) + b + u
                + seq![Instr::Jump(test_at)]
        },
        Stmt::Expr(e) => expr_code(e) + seq![Instr::Pop],
    }
}

/// The code of the statements from position `i` on, the first at index `at`.
pub open spec fn stmts_code(ss: Vec<Stmt>, i: int, at: int) -> Seq<Instr>
    decreases ss, ss.len() - i,
{
    if i < 0 || i >= ss.len() {
        seq![]
    } else {
        let c = stmt_code(ss[i], at);
        c + stmts_code(ss, i + 1, at + c.len())
    }
}

/// Stores the arguments into the parameters, last parameter first.
pub open spec fn prologue(f: Function) -> Seq<Instr> {
    let n = f.params.len() as int;
    Seq::new(n as nat, |k: int| Instr::StoreVar(f.params[n - 1 - k].1@))
}

/// The code of a function placed at `at`: prologue, body, and `return 0`
/// unless the body's code already ends with a return.
pub open spec fn function_code(f: Function, at: int) -> Seq<Instr> {
    let p = prologue(f);
    let b = stmt_code(f.body, at + p.len());
    let c = p + b;
    if c.len() > 0 && c.last() is Return {
        c
    } else {
        c + seq![Instr::LoadConst(Value::Int(0)), Instr::Return]
    }
}

/// The code of the functions from position `i` on, the first at `at`.
pub open spec fn program_code(fs: Seq<Function>, i: int, at: int) -> Seq<Instr>
    decreases fs.len() - i,
{
    if i < 0 || i >= fs.len() {
        seq![]
    } else {
        let c = function_code(fs[i], at);
        c + program_code(fs, i + 1, at + c.len())
    }
}

/// The entry table: each function's name with the index of its first
/// instruction, in order.
pub open spec fn program_entries(fs: Seq<Function>, i: int, at: int) -> Seq<(Seq<char>, int)>
    decreases fs.len() - i,
{
    if i < 0 || i >= fs.len() {
        seq![]
    } else {
        seq![(fs[i].name@, at)] + program_entries(fs, i + 1, at + function_code(fs[i], at).len())
    }
}

pub open spec fn entries_view(v: Seq<(String, usize)>) -> Seq<(Seq<char>, int)> {
    v.map_values(|e: (String, usize)| (e.0@, e.1 as int))
}

// ---------------------------------------------------------------------------
// Executable compiler

struct Compiler {
    code: Vec<Opcode>,
    functions: Vec<(String, usize)>,
}

impl Compiler {
    fn emit(&mut self, op: Opcode)
        ensures
            instrs(final(self).code@) == instrs(old(self).code@).push(op@),
            final(self).code@.len() == old(self).code@.len() + 1,
            final(self).functions == old(self).functions,
    {
        self.code.push(op);
        assert(instrs(final(self).code@) =~= instrs(old(self).code@).push(op@));
    }

    fn compile_expr(&mut self, e: &Expr)
        ensures
            instrs(final(self).code@) == instrs(old(self).code@) + expr_code(*e),
            final(self).code@.len() >= old(self).code@.len(),
            final(self).functions == old(self).functions,
        decreases e,
    {
        let ghost start = instrs(self.code@);
        match e {
            Expr::Literal(l) => match l {
                Literal::Int(i) => self.emit(Opcode::LoadConst(Value::Int(*i))),
                Literal::Float(text) => self.emit(Opcode::LoadFloat(text.clone())),
                Literal::String(_) => self.emit(Opcode::LoadConst(Value::Void)),
            },
            Expr::Identifier(name) => self.emit(Opcode::LoadVar(name.clone())),
            Expr::Binary { left, op, right } => {
                self.compile_expr(left);
                self.compile_expr(right);
                self.emit(Opcode::BinaryOp(*op));
            },
            Expr::Call { name, args } => {
                self.compile_args(args, 0);
                self.emit(Opcode::Call(name.clone(), args.len()));
            },
            Expr::Assignment { name, value } => {
                self.compile_expr(value);
                self.emit(Opcode::StoreVar(name.clone()));
                self.emit(Opcode::LoadVar(name.clone()));
            },
        }
        assert(instrs(self.code@) =~= start + expr_code(*e));
    }

    fn compile_args(&mut self, args: &Vec<Expr>, i: usize)
        requires
            i <= args@.len(),
        ensures
            instrs(final(self).code@) == instrs(old(self).code@) + args_code(*args, i as int),
            final(self).code@.len() >= old(self).code@.len(),
            final(self).functions == old(self).functions,
        decreases args, args@.len() - i,
    {
        let ghost start = instrs(self.code@);
        if i >= args.len() {
            assert(instrs(self.code@) =~= start + args_code(*args, i as int));
            return;
        }
        self.compile_expr(&args[i]);
        self.compile_args(args, i + 1);
        assert(instrs(self.code@) =~= start + args_code(*args, i as int));
    }

    fn compile_stmt(&mut self, s: &Stmt)
        ensures
            instrs(final(self).code@) == instrs(old(self).code@) + stmt_code(
                *s,
                old(self).code@.len() as int,
            ),
            final(self).code@.len() >= old(self).code@.len(),
            final(self).functions == old(self).functions,
        decreases s, 1nat,
    {
        let ghost start = instrs(self.code@);
        let ghost at = self.code@.len() as int;
        match s {
            Stmt::Declaration { ty: _, name, init } => match init {
                Some(e) => {
                    self.compile_expr(e);
                    self.emit(Opcode::StoreVar(name.clone()));
                },
                None => {},
            },
            Stmt::Return(e) => {
                match e {
                    Some(x) => self.compile_expr(x),
                    None => self.emit(Opcode::LoadConst(Value::Void)),
                }
                self.emit(Opcode::Return);
            },
            Stmt::Block(ss) => {
                self.compile_stmts(ss, 0);
            },
            Stmt::If { .. } => self.compile_branch(s),
            Stmt::For { .. } => self.compile_loop(s),
            Stmt::Expr(e) => {
                self.compile_expr(e);
                self.emit(Opcode::Pop);
            },
        }
        assert(instrs(self.code@) =~= start + stmt_code(*s, at));
    }

    fn compile_branch(&mut self, s: &Stmt)
        requires
            *s is If,
        ensures
            instrs(final(self).code@) == instrs(old(self).code@) + stmt_code(
                *s,
                old(self).code@.len() as int,
            ),
            final(self).code@.len() >= old(self).code@.len(),
            final(self).functions == old(self).functions,
        decreases s, 0nat,
    {
        let ghost start = instrs(self.code@);
        let ghost at = self.code@.len() as int;
        match s {
            Stmt::If { cond, then, else_ } => {
                self.compile_expr(cond);
                let skip = self.code.len();
                self.emit(Opcode::JumpIfFalse(0));
                self.compile_stmt(then);
                let jump = self.code.len();
                self.emit(Opcode::Jump(0));
                let else_start = self.code.len();
                let ghost before_patch = instrs(self.code@);
                assert(before_patch.len() == self.code@.len());
                self.code.set(skip, Opcode::JumpIfFalse(else_start));
                assert(instrs(self.code@) =~= before_patch.update(
                    skip as int,
                    Instr::JumpIfFalse(else_start as int),
                ));
                match else_ {
                    Some(x) => self.compile_stmt(x),
                    None => {},
                }
                let end = self.code.len();
                let ghost before_patch2 = instrs(self.code@);
                assert(before_patch2.len() == self.code@.len());
                self.code.set(jump, Opcode::Jump(end));
                assert(instrs(self.code@) =~= before_patch2.update(
                    jump as int,
                    Instr::Jump(end as int),
                ));
            },
            _ => {},
        }
        assert(instrs(self.code@) =~= start + stmt_code(*s, at));
    }

    fn compile_loop(&mut self, s: &Stmt)
        requires
            *s is For,
        ensures
            instrs(final(self).code@) == instrs(old(self).code@) + stmt_code(
                *s,
                old(self).code@.len() as int,
            ),
            final(self).code@.len() >= old(self).code@.len(),
            final(self).functions == old(self).functions,
        decreases s, 0nat,
    {
        let ghost start = instrs(self.code@);
        let ghost at = self.code@.len() as int;
        match s {
            Stmt::For { init, cond, update, body } => {
                match init {
                    Some(x) => self.compile_stmt(x),
                    None => {},
                }
                let test_at = self.code.len();
                let mut exit: Option<usize> = None;
                match cond {
                    Some(c) => {
                        self.compile_expr(c);
                        exit = Some(self.code.len());
                        self.emit(Opcode::JumpIfFalse(0));
            },
            None => {},
        }
        self.compile_stmt(body);
        match update {
            Some(u) => {
                self.compile_expr(u);
                self.emit(Opcode::Pop);
            },
            None => {},
        }
        self.emit(Opcode::Jump(test_at));
        match exit {
            Some(k) => {
                let end = self.code.len();
                let ghost before_patch = instrs(self.code@);
                self.code.set(k, Opcode::JumpIfFalse(end));
                assert(instrs(self.code@) =~= before_patch.update(
                    k as int,
                    Instr::JumpIfFalse(end as int),
                ));
            },
            None => {},
        }
    
            },
            _ => {},
        }
        assert(instrs(self.code@) =~= start + stmt_code(*s, at));
    }

    fn compile_stmts(&mut self, ss: &Vec<Stmt>, i: usize)
        requires
            i <= ss@.len(),
        ensures
            instrs(final(self).code@) == instrs(old(self).code@) + stmts_code(
                *ss,
                i as int,
                old(self).code@.len() as int,
            ),
            final(self).code@.len() >= old(self).code@.len(),
            final(self).functions == old(self).functions,
        decreases ss, ss@.len() - i,
    {
        let ghost start = instrs(self.code@);
        let ghost at = self.code@.len() as int;
        if i >= ss.len() {
            assert(instrs(self.code@) =~= start + stmts_code(*ss, i as int, at));
            return;
        }
        self.compile_stmt(&ss[i]);
        self.compile_stmts(ss, i + 1);
        assert(instrs(self.code@) =~= start + stmts_code(*ss, i as int, at));
    }
}

impl Compiler {
    fn compile_function(&mut self, f: &Function)
        ensures
            instrs(final(self).code@) == instrs(old(self).code@) + function_code(
                *f,
                old(self).code@.len() as int,
            ),
            final(self).functions == old(self).functions,
    {
        let ghost start = instrs(self.code@);
        let at = self.code.len();
        let n = f.params.len();
        let ghost names = f.params@;
        let mut k = n;
        while k > 0
            invariant
                k <= n == f.params@.len(),
                self.functions == old(self).functions,
                at == old(self).code@.len(),
                start == instrs(old(self).code@),
                instrs(self.code@) == start + Seq::new(
                    (n - k) as nat,
                    |m: int| Instr::StoreVar(f.params@[n - 1 - m].1@),
                ),
            decreases k,
        {
            k = k - 1;
            let ghost before = instrs(self.code@);
            self.emit(Opcode::StoreVar(f.params[k].1.clone()));
            assert(instrs(self.code@) =~= start + Seq::new(
                (n - k) as nat,
                |m: int| Instr::StoreVar(f.params@[n - 1 - m].1@),
            ));
        }
        assert(instrs(self.code@) =~= start + prologue(*f));
        assert(self.code@.len() == at + prologue(*f).len());
        self.compile_stmt(&f.body);
        let len = self.code.len();
        let ghost c = prologue(*f) + stmt_code(f.body, at + prologue(*f).len());
        assert(instrs(self.code@) =~= start + c);
        let ends_with_return = len > at && match self.code[len - 1] {
            Opcode::Return => true,
            _ => false,
        };
        if ends_with_return {
            assert(c.last() == instrs(self.code@)[len - 1]);
        } else {
            if len > at {
                assert(c.last() == instrs(self.code@)[len - 1]);
            }
            self.emit(Opcode::LoadConst(Value::Int(0)));
            self.emit(Opcode::Return);
        }
        assert(instrs(self.code@) =~= start + function_code(*f, at as int));
    }

    /// Compiles every function in order; returns the code and the entry
    /// table.
    fn compile(program: &Program) -> (r: (Vec<Opcode>, Vec<(String, usize)>))
        ensures
            instrs(r.0@) == program_code(program.functions@, 0, 0),
            entries_view(r.1@) == program_entries(program.functions@, 0, 0),
    {
        let mut c = Compiler { code: Vec::new(), functions: Vec::new() };
        let ghost fs = program.functions@;
        let mut i: usize = 0;
        assert(instrs(c.code@) =~= seq![]);
        assert(entries_view(c.functions@) =~= seq![]);
        while i < program.functions.len()
            invariant
                i <= fs.len(),
                fs == program.functions@,
                instrs(c.code@) + program_code(fs, i as int, c.code@.len() as int) == program_code(
                    fs,
                    0,
                    0,
                ),
                entries_view(c.functions@) + program_entries(fs, i as int, c.code@.len() as int)
                    == program_entries(fs, 0, 0),
            decreases fs.len() - i,
        {
            let ghost code0 = instrs(c.code@);
            let ghost entries0 = entries_view(c.functions@);
            let at = c.code.len();
            let f = &program.functions[i];
            c.functions.push((f.name.clone(), at));
            c.compile_function(f);
            assert(instrs(c.code@).len() == c.code@.len());
            assert(code0.len() == at);
            assert(c.code@.len() == at + function_code(*f, at as int).len());
            assert(code0 + program_code(fs, i as int, at as int) =~= instrs(c.code@)
                + program_code(fs, i + 1, c.code@.len() as int));
            assert(entries_view(c.functions@) =~= entries0.push((f.name@, at as int)));
            assert(entries0 + program_entries(fs, i as int, at as int) =~= entries_view(
                c.functions@,
            ) + program_entries(fs, i + 1, c.code@.len() as int));
            i = i + 1;
        }
        assert(instrs(c.code@) + program_code(fs, i as int, c.code@.len() as int) =~= instrs(
            c.code@,
        ));
        assert(entries_view(c.functions@) + program_entries(fs, i as int, c.code@.len() as int)
            =~= entries_view(c.functions@));
        (c.code, c.functions)
    }
}

// ---------------------------------------------------------------------------
// The machine as contracts see it

pub struct FrameView {
    /// Where execution continues when this frame returns.
    pub return_ip: int,
    /// Local variables, each name at most once.
    pub locals: Seq<(Seq<char>, Value)>,
}

pub struct MachineView {
    pub code: Seq<Instr>,
    pub stack: Seq<Value>,
    pub frames: Seq<FrameView>,
    pub ip: int,
    pub functions: Seq<(Seq<char>, int)>,
}

/// What one step (or a run of steps) comes to.
pub enum Outcome {
    /// The machine goes on in this state.
    Running(MachineView),
    /// The machine stopped with this result.
    Finished(Value),
    /// The machine faulted with this message.
    Faulted(Seq<char>),
    /// The step does floating-point work, which the caller's `FloatArith`
    /// decides.
    Host,
}

/// The position of `name` in `locals` from `i` on, or -1.
pub open spec fn local_index(locals: Seq<(Seq<char>, Value)>, name: Seq<char>, i: int) -> int
    decreases locals.len() - i,
{
    if i < 0 || i >= locals.len() {
        -1
    } else if locals[i].0 == name {
        i
    } else {
        local_index(locals, name, i + 1)
    }
}

/// Binds `name` to `v`: overwrites the binding, or adds one.
pub open spec fn store_local(locals: Seq<(Seq<char>, Value)>, name: Seq<char>, v: Value) -> Seq<(Seq<char>, Value)> {
    let k = local_index(locals, name, 0);
    if k < 0 {
        locals.push((name, v))
    } else {
        locals.update(k, (name, v))
    }
}

/// The entry of the last function registered under `name`.
pub open spec fn entry_of(fns: Seq<(Seq<char>, int)>, name: Seq<char>) -> Option<int>
    decreases fns.len(),
{
    if fns.len() == 0 {
        None
    } else if fns.last().0 == name {
        Some(fns.last().1)
    } else {
        entry_of(fns.drop_last(), name)
    }
}

pub open spec fn top_or_void(stack: Seq<Value>) -> Value {
    if stack.len() == 0 {
        Value::Void
    } else {
        stack.last()
    }
}

pub open spec fn overflow_message() -> Seq<char> {
    "Integer overflow"@
}

/// Integer arithmetic and comparison; overflow and division by zero fault.
pub open spec fn int_op(op: BinOp, l: i64, r: i64) -> Result<Value, Seq<char>> {
    match op {
        BinOp::Plus => match l.checked_add(r) {
            Some(v) => Ok(Value::Int(v)),
            None => Err(overflow_message()),
        },
        BinOp::Minus => match l.checked_sub(r) {
            Some(v) => Ok(Value::Int(v)),
            None => Err(overflow_message()),
        },
        BinOp::Multiply => match l.checked_mul(r) {
            Some(v) => Ok(Value::Int(v)),
            None => Err(overflow_message()),
        },
        BinOp::Divide => if r == 0 {
            Err("Division by zero"@)
        } else {
            match l.checked_div(r) {
                Some(v) => Ok(Value::Int(v)),
                None => Err(overflow_message()),
            }
        },
        BinOp::Equal => Ok(Value::Int(if l == r { 1 } else { 0 })),
        BinOp::NotEqual => Ok(Value::Int(if l != r { 1 } else { 0 })),
        BinOp::LessThan => Ok(Value::Int(if l < r { 1 } else { 0 })),
        BinOp::GreaterThan => Ok(Value::Int(if l > r { 1 } else { 0 })),
        BinOp::LessEqual => Ok(Value::Int(if l <= r { 1 } else { 0 })),
        BinOp::GreaterEqual => Ok(Value::Int(if l >= r { 1 } else { 0 })),
    }
}

pub open spec fn underflow_message() -> Seq<char> {
    "Stack underflow"@
}

pub open spec fn no_frame_message() -> Seq<char> {
    "No active stack frame"@
}

/// One step of the machine.
pub open spec fn step(s: MachineView) -> Outcome {
    if !(0 <= s.ip < s.code.len()) {
        Outcome::Finished(top_or_void(s.stack))
    } else {
        let next = MachineView { ip: s.ip + 1, ..s };
        match s.code[s.ip] {
            Instr::LoadConst(v) => Outcome::Running(MachineView { stack: s.stack.push(v), ..next }),
            Instr::LoadFloat(_) => Outcome::Host,
            Instr::LoadVar(name) => if s.frames.len() == 0 {
                Outcome::Faulted(no_frame_message())
            } else {
                let locals = s.frames.last().locals;
                let k = local_index(locals, name, 0);
                if k < 0 {
                    Outcome::Faulted("Undefined variable: "@ + name)
                } else {
                    Outcome::Running(MachineView { stack: s.stack.push(locals[k].1), ..next })
                }
            },
            Instr::StoreVar(name) => if s.stack.len() == 0 {
                Outcome::Faulted(underflow_message())
            } else if s.frames.len() == 0 {
                Outcome::Faulted(no_frame_message())
            } else {
                let f = s.frames.last();
                Outcome::Running(
                    MachineView {
                        stack: s.stack.drop_last(),
                        frames: s.frames.update(
                            s.frames.len() - 1,
                            FrameView { locals: store_local(f.locals, name, s.stack.last()), ..f },
                        ),
                        ..next
                    },
                )
            },
            Instr::BinaryOp(op) => if s.stack.len() < 2 {
                Outcome::Faulted(underflow_message())
            } else {
                let r = s.stack.last();
                let l = s.stack.drop_last().last();
                let rest = s.stack.drop_last().drop_last();
                match (l, r) {
                    (Value::Int(a), Value::Int(b)) => match int_op(op, a, b) {
                        Ok(v) => Outcome::Running(MachineView { stack: rest.push(v), ..next }),
                        Err(m) => Outcome::Faulted(m),
                    },
                    (Value::Void, _) => Outcome::Running(
                        MachineView { stack: rest.push(Value::Void), ..next },
                    ),
                    (_, Value::Void) => Outcome::Running(
                        MachineView { stack: rest.push(Value::Void), ..next },
                    ),
                    _ => Outcome::Host,
                }
            },
            Instr::Jump(t) => Outcome::Running(MachineView { ip: t, ..s }),
            Instr::JumpIfFalse(t) => if s.stack.len() == 0 {
                Outcome::Faulted(underflow_message())
            } else {
                Outcome::Running(
                    MachineView {
                        stack: s.stack.drop_last(),
                        ip: if s.stack.last().truthy() { s.ip + 1 } else { t },
                        ..s
                    },
                )
            },
            Instr::Call(name, _) => match entry_of(s.functions, name) {
                None => Outcome::Faulted("Undefined function: "@ + name),
                Some(a) => Outcome::Running(
                    MachineView {
                        frames: s.frames.push(FrameView { return_ip: s.ip + 1, locals: seq![] }),
                        ip: a,
                        ..s
                    },
                ),
            },
            Instr::Return => if s.frames.len() == 0 {
                Outcome::Faulted("Call stack underflow"@)
            } else if s.frames.len() == 1 {
                Outcome::Finished(top_or_void(s.stack))
            } else {
                Outcome::Running(
                    MachineView { frames: s.frames.drop_last(), ip: s.frames.last().return_ip, ..s },
                )
            },
            Instr::Pop => Outcome::Running(
                MachineView {
                    stack: if s.stack.len() > 0 { s.stack.drop_last() } else { s.stack },
                    ..next
                },
            ),
            Instr::Halt => Outcome::Finished(top_or_void(s.stack)),
        }
    }
}

/// At most `fuel` steps from `s`.
pub open spec fn run_spec(s: MachineView, fuel: nat) -> Outcome
    decreases fuel,
{
    if fuel == 0 {
        Outcome::Running(s)
    } else {
        match step(s) {
            Outcome::Running(t) => run_spec(t, (fuel - 1) as nat),
            other => other,
        }
    }
}

/// The state in which `main`, at `entry`, starts: one frame that returns
/// past the end of the code.
pub open spec fn start_state(s: MachineView, entry: int) -> MachineView {
    MachineView {
        ip: entry,
        frames: s.frames.push(FrameView { return_ip: s.code.len() as int, locals: seq![] }),
        ..s
    }
}

/// What running a machine in state `s` for at most `limit` steps returns:
/// exact wherever no floating-point work is done.
pub open spec fn run_result(s: MachineView, limit: nat, r: Result<Value, String>) -> bool {
    match entry_of(s.functions, "main"@) {
        None => r matches Err(m) && m@ == "Function 'main' not found"@,
        Some(a) => match run_spec(start_state(s, a), limit) {
            Outcome::Finished(v) => r matches Ok(x) && x == v,
            Outcome::Faulted(m) => r matches Err(e) && e@ == m,
            Outcome::Running(_) => r matches Err(e) && e@ == "Step limit reached"@,
            Outcome::Host => true,
        },
    }
}

// ---------------------------------------------------------------------------
// Executable machine

/// Floating-point arithmetic on IEEE-754 doubles held as bits, supplied by
/// the caller.
pub trait FloatArith {
    /// The double nearest to a decimal literal `digits.digits`.
    fn parse(&self, text: &str) -> u64;

    /// The double nearest to an integer.
    fn from_int(&self, v: i64) -> u64;

    /// `left op right`: a `Float` for an arithmetic operator, an `Int` of 1
    /// or 0 for a comparison.
    fn apply(&self, op: BinOp, left: u64, right: u64) -> Value;
}

struct Frame {
    return_ip: usize,
    locals: Vec<(String, Value)>,
}

pub open spec fn locals_view(v: Seq<(String, Value)>) -> Seq<(Seq<char>, Value)> {
    v.map_values(|p: (String, Value)| (p.0@, p.1))
}

spec fn frame_view(f: Frame) -> FrameView {
    FrameView { return_ip: f.return_ip as int, locals: locals_view(f.locals@) }
}

/// The virtual machine: code, operand stack, frames, instruction pointer and
/// entry table.
pub struct VM {
    code: Vec<Opcode>,
    stack: Vec<Value>,
    frames: Vec<Frame>,
    ip: usize,
    functions: Vec<(String, usize)>,
}

impl View for VM {
    type V = MachineView;

    closed spec fn view(&self) -> MachineView {
        MachineView {
            code: instrs(self.code@),
            stack: self.stack@,
            frames: self.frames@.map_values(|f: Frame| frame_view(f)),
            ip: self.ip as int,
            functions: entries_view(self.functions@),
        }
    }
}

enum Effect {
    Continue,
    Done(Value),
    Fault(String),
}

fn find_local(locals: &Vec<(String, Value)>, name: &String) -> (r: Option<usize>)
    ensures
        local_index(locals_view(locals@), name@, 0) < 0 ==> r is None,
        local_index(locals_view(locals@), name@, 0) >= 0 ==> (r matches Some(k) && k as int
            == local_index(locals_view(locals@), name@, 0) && k < locals@.len()),
{
    let ghost v = locals_view(locals@);
    let mut k: usize = 0;
    while k < locals.len()
        invariant
            k <= locals@.len(),
            v == locals_view(locals@),
            local_index(v, name@, 0) == local_index(v, name@, k as int),
        decreases locals@.len() - k,
    {
        if locals[k].0 == *name {
            return Some(k);
        }
        k = k + 1;
    }
    None
}

fn find_entry(fns: &Vec<(String, usize)>, name: &str) -> (r: Option<usize>)
    ensures
        match entry_of(entries_view(fns@), name@) {
            Some(a) => r matches Some(x) && x as int == a,
            None => r is None,
        },
{
    let ghost all = entries_view(fns@);
    let mut k = fns.len();
    assert(all.subrange(0, k as int) =~= all);
    while k > 0
        invariant
            k <= fns@.len(),
            all == entries_view(fns@),
            entry_of(all, name@) == entry_of(all.subrange(0, k as int), name@),
        decreases k,
    {
        let ghost w = all.subrange(0, k as int);
        assert(w.drop_last() =~= all.subrange(0, k - 1));
        if same_text(fns[k - 1].0.as_str(), name) {
            return Some(fns[k - 1].1);
        }
        k = k - 1;
    }
    None
}

fn top_or_void_of(stack: &Vec<Value>) -> (r: Value)
    ensures
        r == top_or_void(stack@),
{
    let n = stack.len();
    if n == 0 {
        Value::Void
    } else {
        stack[n - 1]
    }
}

fn int_op_of(op: BinOp, l: i64, r: i64) -> (res: Result<Value, String>)
    ensures
        match int_op(op, l, r) {
            Ok(v) => res matches Ok(x) && x == v,
            Err(m) => res matches Err(e) && e@ == m,
        },
{
    match op {
        BinOp::Plus => match l.checked_add(r) {
            Some(v) => Ok(Value::Int(v)),
            None => Err(String::from_str("Integer overflow")),
        },
        BinOp::Minus => match l.checked_sub(r) {
            Some(v) => Ok(Value::Int(v)),
            None => Err(String::from_str("Integer overflow")),
        },
        BinOp::Multiply => match l.checked_mul(r) {
            Some(v) => Ok(Value::Int(v)),
            None => Err(String::from_str("Integer overflow")),
        },
        BinOp::Divide => if r == 0 {
            Err(String::from_str("Division by zero"))
        } else {
            match l.checked_div(r) {
                Some(v) => Ok(Value::Int(v)),
                None => Err(String::from_str("Integer overflow")),
            }
        },
        BinOp::Equal => Ok(Value::Int(if l == r { 1 } else { 0 })),
        BinOp::NotEqual => Ok(Value::Int(if l != r { 1 } else { 0 })),
        BinOp::LessThan => Ok(Value::Int(if l < r { 1 } else { 0 })),
        BinOp::GreaterThan => Ok(Value::Int(if l > r { 1 } else { 0 })),
        BinOp::LessEqual => Ok(Value::Int(if l <= r { 1 } else { 0 })),
        BinOp::GreaterEqual => Ok(Value::Int(if l >= r { 1 } else { 0 })),
    }
}

fn message_with(prefix: &str, name: &String) -> (r: String)
    ensures
        r@ == prefix@ + name@,
{
    let mut m = String::from_str(prefix);
    m.append(name.as_str());
    m
}

impl VM {
    /// Compiles `program` into a machine that has not started.
    pub fn new(program: &Program) -> (r: Self)
        ensures
            r@ == (MachineView {
                code: program_code(program.functions@, 0, 0),
                stack: seq![],
                frames: seq![],
                ip: 0,
                functions: program_entries(program.functions@, 0, 0),
            }),
    {
        let (code, functions) = Compiler::compile(program);
        let r = VM { code, stack: Vec::new(), frames: Vec::new(), ip: 0, functions };
        assert(r@.frames =~= seq![]);
        r
    }

    /// Executes one instruction.
    fn step<F: FloatArith>(&mut self, floats: &F) -> (r: Effect)
        ensures
            match step(old(self)@) {
                Outcome::Running(t) => r is Continue && final(self)@ == t,
                Outcome::Finished(v) => r matches Effect::Done(x) && x == v,
                Outcome::Faulted(m) => r matches Effect::Fault(e) && e@ == m,
                Outcome::Host => true,
            },
    {
        let ghost s = self@;
        let n = self.code.len();
        if self.ip >= n {
            return Effect::Done(top_or_void_of(&self.stack));
        }
        let ip = self.ip;
        assert(s.code[ip as int] == self.code@[ip as int]@);
        match &self.code[ip] {
            Opcode::LoadConst(v) => {
                self.stack.push(*v);
                self.ip = ip + 1;
                Effect::Continue
            },
            Opcode::LoadFloat(text) => {
                let bits = floats.parse(text.as_str());
                self.stack.push(Value::Float(bits));
                self.ip = ip + 1;
                Effect::Continue
            },
            Opcode::LoadVar(name) => {
                let nf = self.frames.len();
                if nf == 0 {
                    return Effect::Fault(String::from_str("No active stack frame"));
                }
                assert(s.frames.last() == frame_view(self.frames@[nf - 1]));
                match find_local(&self.frames[nf - 1].locals, name) {
                    Some(k) => {
                        let v = self.frames[nf - 1].locals[k].1;
                        self.stack.push(v);
                        self.ip = ip + 1;
                        Effect::Continue
                    },
                    None => Effect::Fault(message_with("Undefined variable: ", name)),
                }
            },
            Opcode::StoreVar(name) => {
                if self.stack.len() == 0 {
                    return Effect::Fault(String::from_str("Stack underflow"));
                }
                if self.frames.len() == 0 {
                    return Effect::Fault(String::from_str("No active stack frame"));
                }
                let name = name.clone();
                let v = self.stack.pop().unwrap();
                let mut f = self.frames.pop().unwrap();
                let ghost old_locals = locals_view(f.locals@);
                match find_local(&f.locals, &name) {
                    Some(k) => {
                        f.locals.set(k, (name, v));
                        assert(locals_view(f.locals@) =~= old_locals.update(k as int, (name@, v)));
                    },
                    None => {
                        f.locals.push((name, v));
                        assert(locals_view(f.locals@) =~= old_locals.push((name@, v)));
                    },
                }
                self.frames.push(f);
                self.ip = ip + 1;
                assert(self@.frames =~= s.frames.update(
                    s.frames.len() - 1,
                    FrameView {
                        locals: store_local(s.frames.last().locals, name@, s.stack.last()),
                        ..s.frames.last()
                    },
                ));
                Effect::Continue
            },
            Opcode::BinaryOp(op) => {
                if self.stack.len() < 2 {
                    return Effect::Fault(String::from_str("Stack underflow"));
                }
                let op = *op;
                let r = self.stack.pop().unwrap();
                let l = self.stack.pop().unwrap();
                let result = match (l, r) {
                    (Value::Int(a), Value::Int(b)) => match int_op_of(op, a, b) {
                        Ok(v) => v,
                        Err(m) => {
                            return Effect::Fault(m);
                        },
                    },
                    (Value::Void, _) => Value::Void,
                    (_, Value::Void) => Value::Void,
                    (Value::Int(a), Value::Float(b)) => floats.apply(op, floats.from_int(a), b),
                    (Value::Float(a), Value::Int(b)) => floats.apply(op, a, floats.from_int(b)),
                    (Value::Float(a), Value::Float(b)) => floats.apply(op, a, b),
                };
                self.stack.push(result);
                self.ip = ip + 1;
                Effect::Continue
            },
            Opcode::Jump(t) => {
                self.ip = *t;
                Effect::Continue
            },
            Opcode::JumpIfFalse(t) => {
                let t = *t;
                match self.stack.pop() {
                    None => Effect::Fault(String::from_str("Stack underflow")),
                    Some(v) => {
                        if v.is_truthy() {
                            self.ip = ip + 1;
                        } else {
                            self.ip = t;
                        }
                        Effect::Continue
                    },
                }
            },
            Opcode::Call(name, _) => {
                match find_entry(&self.functions, name.as_str()) {
                    None => Effect::Fault(message_with("Undefined function: ", name)),
                    Some(a) => {
                        let f = Frame { return_ip: ip + 1, locals: Vec::new() };
                        assert(frame_view(f) == FrameView {
                            return_ip: ip + 1,
                            locals: seq![],
                        }) by {
                            assert(locals_view(f.locals@) =~= seq![]);
                        }
                        self.frames.push(f);
                        self.ip = a;
                        assert(self@.frames =~= s.frames.push(frame_view(f)));
                        Effect::Continue
                    },
                }
            },
            Opcode::Return => {
                let nf = self.frames.len();
                if nf == 0 {
                    return Effect::Fault(String::from_str("Call stack underflow"));
                }
                if nf == 1 {
                    return Effect::Done(top_or_void_of(&self.stack));
                }
                let f = self.frames.pop().unwrap();
                self.ip = f.return_ip;
                assert(self@.frames =~= s.frames.drop_last());
                Effect::Continue
            },
            Opcode::Pop => {
                self.stack.pop();
                self.ip = ip + 1;
                Effect::Continue
            },
            Opcode::Halt => Effect::Done(top_or_void_of(&self.stack)),
        }
    }
}

impl VM {
    /// Runs `main` for at most `max_steps` instructions. The result is the
    /// value on top of the stack when `main` returns (or the code runs out, or
    /// `Halt` runs), `Void` when the stack is empty; a fault ends the run with
    /// its message.
    pub fn run_with_limit<F: FloatArith>(&mut self, floats: &F, max_steps: u64) -> (r: Result<Value, String>)
        ensures
            run_result(old(self)@, max_steps as nat, r),
    {
        let entry = find_entry(&self.functions, "main");
        if entry.is_none() {
            return Err(String::from_str("Function 'main' not found"));
        }
        let entry = entry.unwrap();
        let f = Frame { return_ip: self.code.len(), locals: Vec::new() };
        assert(locals_view(f.locals@) =~= seq![]);
        let ghost s0 = self@;
        assert(s0 == old(self)@);
        self.frames.push(f);
        self.ip = entry;
        let ghost start = self@;
        assert(start == start_state(s0, entry as int)) by {
            assert(start.frames =~= s0.frames.push(frame_view(f)));
        }
        let ghost mut host = false;
        let mut steps: u64 = 0;
        while steps < max_steps
            invariant
                steps <= max_steps,
                entry_of(old(self)@.functions, "main"@) == Some(entry as int),
                start == start_state(old(self)@, entry as int),
                !host ==> run_spec(start, max_steps as nat) == run_spec(
                    self@,
                    (max_steps - steps) as nat,
                ),
                host ==> run_spec(start, max_steps as nat) is Host,
            decreases max_steps - steps,
        {
            let ghost before = self@;
            match self.step(floats) {
                Effect::Continue => {
                    proof {
                        if !host && step(before) is Host {
                            host = true;
                        }
                    }
                },
                Effect::Done(v) => {
                    proof {
                        if !host {
                            assert(run_spec(before, (max_steps - steps) as nat) == step(before));
                        }
                    }
                    return Ok(v);
                },
                Effect::Fault(m) => {
                    proof {
                        if !host {
                            assert(run_spec(before, (max_steps - steps) as nat) == step(before));
                        }
                    }
                    return Err(m);
                },
            }
            steps = steps + 1;
        }
        Err(String::from_str("Step limit reached"))
    }

    /// Runs `main` to completion: `run_with_limit` with the largest step
    /// budget. A program that loops forever does not come back in practice.
    pub fn run<F: FloatArith>(&mut self, floats: &F) -> (r: Result<Value, String>)
        ensures
            run_result(old(self)@, u64::MAX as nat, r),
    {
        self.run_with_limit(floats, u64::MAX)
    }
}

} // verus!
