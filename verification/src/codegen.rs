use vstd::prelude::*;

use crate::error::Report;
use crate::parse::{
    exprs_data, exprs_model, lemma_exprs_data, Ast, AstData, BinaryExpr, BinaryOp, Call, Expr,
    ExprData, ExprKind, Lit, LitData,
};
use crate::span::{Span, Spanned};
use crate::text::dec_rep;
use vstd::string::StringExecFns;

verus! {

// ---------------------------------------------------------------------------
// Codegen errors
// ---------------------------------------------------------------------------

#[derive(Debug, PartialEq, Eq, Clone, Copy)]
pub struct Error {
    pub kind: ErrorKind,
    pub span: Span,
}

impl Error {
    pub fn new(kind: ErrorKind, span: Span) -> (e: Error)
        ensures
            e == (Error { kind, span }),
    {
        Error { kind, span }
    }
}

#[derive(Debug, PartialEq, Eq, Clone, Copy)]
pub enum ErrorKind {
    /// An operand position received a non-numeric literal where an integer
    /// was required.
    ExpectedIntExpr,
    /// An assignment target that is not a plain variable reference. This is
    /// validated here, not at parse time.
    ExpectedIdent,
    /// An operator that code generation does not know how to lower;
    /// defensive, unreachable given a correct parser.
    InvalidOperator,
}

impl Spanned for Error {
    open spec fn spec_span(&self) -> Span {
        self.span
    }

    fn span(&self) -> Span {
        self.span
    }
}

impl Report for Error {
    open spec fn spec_message(&self, source: Seq<char>) -> Seq<char> {
        match self.kind {
            ErrorKind::ExpectedIntExpr => "Expected integer expression"@,
            ErrorKind::ExpectedIdent => "Expected identifier"@,
            ErrorKind::InvalidOperator => "Invalid operator"@,
        }
    }

    fn message(&self, source: &str) -> (m: String) {
        match self.kind {
            ErrorKind::ExpectedIntExpr => "Expected integer expression".to_owned(),
            ErrorKind::ExpectedIdent => "Expected identifier".to_owned(),
            ErrorKind::InvalidOperator => "Invalid operator".to_owned(),
        }
    }
}

// ---------------------------------------------------------------------------
// The emission model
// ---------------------------------------------------------------------------

/// The integer argument registers of the calling convention, in order.
pub open spec fn reg_name(i: int) -> Seq<char> {
    if i == 0 {
        "rdi"@
    } else if i == 1 {
        "rsi"@
    } else if i == 2 {
        "rdx"@
    } else if i == 3 {
        "rcx"@
    } else if i == 4 {
        "r8"@
    } else {
        "r9"@
    }
}

/// The stack-frame offset of variable slot `idx`.
pub open spec fn slot_offset(idx: int) -> nat {
    ((idx + 1) * 4) as nat
}

/// Saving the argument registers beyond the first slot: pushes of
/// registers `1..k`, in ascending order.
pub open spec fn save_regs(k: int) -> Seq<char>
    decreases k,
{
    if k <= 1 {
        Seq::empty()
    } else {
        save_regs(k - 1) + "push %"@ + reg_name(k - 1) + "\n\t"@
    }
}

/// Popping the marshaled arguments into registers `0..k`. The arguments
/// were pushed left to right, so the pops run in descending register
/// order: the last-pushed argument lands in the last register used, and
/// the i-th argument ends in the i-th register.
pub open spec fn load_regs(k: int) -> Seq<char>
    decreases k,
{
    if k <= 0 {
        Seq::empty()
    } else {
        "pop %"@ + reg_name(k - 1) + "\n\t"@ + load_regs(k - 1)
    }
}

/// Restoring the saved argument registers `1..k`, mirroring the saves in
/// reverse order so caller-visible register state is preserved.
pub open spec fn restore_regs(k: int) -> Seq<char>
    decreases k,
{
    if k <= 1 {
        Seq::empty()
    } else {
        "pop %"@ + reg_name(k - 1) + "\n\t"@ + restore_regs(k - 1)
    }
}

/// The mnemonic of an arithmetic operator that combines the scratch
/// register into the accumulator.
pub open spec fn op_text(op: BinaryOp) -> Seq<char> {
    match op {
        BinaryOp::Sub => "sub"@,
        BinaryOp::Add => "add"@,
        BinaryOp::Mul => "imul"@,
        _ => Seq::empty(),
    }
}

/// The division sequence: divisor to scratch, dividend back to the
/// accumulator, high half zeroed, divide; the quotient ends in the
/// accumulator and the remainder is discarded.
pub open spec fn div_text() -> Seq<char> {
    "mov %eax, %ebx\n\t"@ + "pop %rax\n\t"@ + "mov $0, %edx\n\t"@ + "idiv %ebx\n\t"@
}

/// The text that evaluating `e` into the accumulator lowers to, or the
/// first error met walking the tree in evaluation order.
pub open spec fn emit_expr(e: ExprData) -> Result<Seq<char>, Error>
    decreases e, 1int,
{
    match e {
        ExprData::Lit { val: LitData::Num(n), .. } => Ok("mov $"@ + dec_rep(n) + ", %eax\n\t"@),
        ExprData::Lit { val: LitData::Str(_), span, .. } => Err(
            Error { kind: ErrorKind::ExpectedIntExpr, span },
        ),
        ExprData::Var { idx, .. } => Ok(
            "mov -"@ + dec_rep(slot_offset(idx)) + "(%rbp), %eax\n\t"@,
        ),
        ExprData::Binary { op, op_span, left, right, .. } => {
            if op is Assign {
                match emit_expr(*right) {
                    Err(e) => Err(e),
                    Ok(rt) => match *left {
                        ExprData::Var { idx, .. } => Ok(
                            rt + "mov %eax, -"@ + dec_rep(slot_offset(idx)) + "(%rbp)\n\t"@,
                        ),
                        _ => Err(Error { kind: ErrorKind::ExpectedIdent, span: left.span() }),
                    },
                }
            } else {
                match emit_expr(*left) {
                    Err(e) => Err(e),
                    Ok(lt) => match emit_expr(*right) {
                        Err(e) => Err(e),
                        Ok(rt) => if op is Div {
                            Ok(lt + "push %rax\n\t"@ + rt + div_text())
                        } else {
                            Ok(
                                lt + "push %rax\n\t"@ + rt + "pop %rbx\n\t"@ + op_text(op)
                                    + " %ebx, %eax\n\t"@,
                            )
                        },
                    },
                }
            }
        },
        ExprData::Call { name, args, .. } => {
            match emit_args(args) {
                Err(e) => Err(e),
                Ok(at) => Ok(
                    save_regs(args.len() as int) + at + load_regs(args.len() as int)
                        + "mov $0, %eax\n\t"@ + "call "@ + name + "\n\t"@ + restore_regs(
                        args.len() as int,
                    ),
                ),
            }
        },
    }
}

/// The marshaling text of a call's arguments: each evaluated into the
/// accumulator and pushed, left to right.
pub open spec fn emit_args(args: Seq<ExprData>) -> Result<Seq<char>, Error>
    decreases args, 0int,
{
    if args.len() == 0 {
        Ok(Seq::empty())
    } else {
        match emit_expr(args[0]) {
            Err(e) => Err(e),
            Ok(t) => match emit_args(args.subrange(1, args.len() as int)) {
                Err(e) => Err(e),
                Ok(rest) => Ok(t + "push %rax\n\t"@ + rest),
            },
        }
    }
}

/// The statements of a program, each evaluated in order.
pub open spec fn emit_stmts(es: Seq<ExprData>) -> Result<Seq<char>, Error>
    decreases es.len(),
{
    if es.len() == 0 {
        Ok(Seq::empty())
    } else {
        match emit_expr(es[0]) {
            Err(e) => Err(e),
            Ok(t) => match emit_stmts(es.subrange(1, es.len() as int)) {
                Err(e) => Err(e),
                Ok(rest) => Ok(t + rest),
            },
        }
    }
}

/// The process entry point: a visible start symbol that calls `main` and
/// exits with its status.
pub open spec fn entry_text() -> Seq<char> {
    ".text\n\t"@ + ".global _start\n"@ + "_start:\n\t"@ + "xor %ebp, %ebp\n\t"@ + "call main\n\t"@
        + "mov $1, %edi\n\t"@ + "call exit\n"@
}

/// The prologue of `main`: establish the stack frame.
pub open spec fn start_main_text() -> Seq<char> {
    "main:\n\t"@ + "push %rbp\n\t"@ + "mov %rsp, %rbp\n\t"@
}

/// The epilogue of `main`: restore the frame and return.
pub open spec fn end_main_text() -> Seq<char> {
    "mov %rbp, %rsp\n\t"@ + "pop %rbp\n\t"@ + "ret\n"@
}

/// The assembly text of a whole program, or the first error met lowering
/// its statements.
pub open spec fn emit_program(ast: AstData) -> Result<Seq<char>, Error> {
    match emit_stmts(ast.exprs) {
        Err(e) => Err(e),
        Ok(t) => Ok(entry_text() + start_main_text() + t + end_main_text()),
    }
}

// ---------------------------------------------------------------------------
// The code generator
// ---------------------------------------------------------------------------

fn reg(i: usize) -> (r: &'static str)
    requires
        i < 6,
    ensures
        r@ == reg_name(i as int),
{
    match i {
        0 => "rdi",
        1 => "rsi",
        2 => "rdx",
        3 => "rcx",
        4 => "r8",
        _ => "r9",
    }
}

/// A tree-walking emitter that lowers an expression tree into assembly
/// text, appended to its output buffer: a single accumulator register holds
/// the current value, and a scratch register with an explicit push/pop
/// holds the one pending operand of a binary operation.
pub struct Codegen {
    pub out: String,
}

impl Codegen {
    pub fn new(out: String) -> (c: Codegen)
        ensures
            c.out@ == out@,
    {
        Codegen { out }
    }

    fn entry(&mut self)
        ensures
            final(self).out@ == old(self).out@ + entry_text(),
    {
        self.out.append(".text\n\t");
        self.out.append(".global _start\n");
        self.out.append("_start:\n\t");
        self.out.append("xor %ebp, %ebp\n\t");
        self.out.append("call main\n\t");
        self.out.append("mov $1, %edi\n\t");
        self.out.append("call exit\n");
        assert(self.out@ =~= old(self).out@ + entry_text());
    }

    fn start_main(&mut self)
        ensures
            final(self).out@ == old(self).out@ + start_main_text(),
    {
        self.out.append("main:\n\t");
        self.out.append("push %rbp\n\t");
        self.out.append("mov %rsp, %rbp\n\t");
        assert(self.out@ =~= old(self).out@ + start_main_text());
    }

    fn end_main(&mut self)
        ensures
            final(self).out@ == old(self).out@ + end_main_text(),
    {
        self.out.append("mov %rbp, %rsp\n\t");
        self.out.append("pop %rbp\n\t");
        self.out.append("ret\n");
        assert(self.out@ =~= old(self).out@ + end_main_text());
    }

    /// Appends `-OFF(%rbp)` addressing text for variable slot `i`.
    fn slot(&mut self, i: usize)
        ensures
            final(self).out@ == old(self).out@ + dec_rep(slot_offset(i as int)),
    {
        let off: u128 = (i as u128 + 1) * 4;
        crate::text::append_dec(&mut self.out, off);
        assert(off as nat == slot_offset(i as int));
    }

    /// Lowers one expression: its value ends in the accumulator.
    fn expr(&mut self, e: &Expr) -> (r: Result<(), Error>)
        requires
            e@.wf(),
        ensures
            match emit_expr(e@) {
                Ok(t) => r is Ok && final(self).out@ == old(self).out@ + t,
                Err(x) => r matches Err(y) && y == x,
            },
        decreases *e,
    {
        match &e.kind {
            ExprKind::Lit(ws) => match &ws.value {
                Lit::Num(n) => {
                    self.out.append("mov $");
                    crate::text::append_dec(&mut self.out, *n as u128);
                    self.out.append(", %eax\n\t");
                    assert(self.out@ =~= old(self).out@ + ("mov $"@ + dec_rep(*n as nat)
                        + ", %eax\n\t"@));
                    Ok(())
                },
                Lit::String(_) => Err(Error { kind: ErrorKind::ExpectedIntExpr, span: e.span }),
            },
            ExprKind::Var(i) => {
                self.out.append("mov -");
                self.slot(*i);
                self.out.append("(%rbp), %eax\n\t");
                assert(self.out@ =~= old(self).out@ + ("mov -"@ + dec_rep(slot_offset(*i as int))
                    + "(%rbp), %eax\n\t"@));
                Ok(())
            },
            ExprKind::Binary(b) => self.binary_op(b, e.span),
            ExprKind::Call(c) => {
                proof {
                    lemma_exprs_data(c.args@);
                    assert(e@->Call_args == exprs_data(c.args@));
                    assert forall|i: int| 0 <= i < c.args@.len() implies (#[trigger] c.args@[i])@.wf() by {
                        assert(e@->Call_args[i].wf());
                        assert(e@->Call_args[i] == c.args@[i]@);
                    }
                    assert(decreases_to!(*e => e.kind));
                    assert(decreases_to!(e.kind => *c));
                }
                self.call(c, e.span)
            },
        }
    }

    /// Lowers a binary expression. Arithmetic evaluates the left side,
    /// parks it on the stack, evaluates the right side, and combines; an
    /// assignment evaluates the right side and stores the accumulator into
    /// the target's slot, which must be a plain variable reference.
    fn binary_op(&mut self, b: &BinaryExpr, span: Span) -> (r: Result<(), Error>)
        requires
            (*b.left)@.wf(),
            (*b.right)@.wf(),
        ensures
            ({
                let m = ExprData::Binary {
                    op: b.op.value,
                    op_span: b.op.span,
                    left: Box::new((*b.left)@),
                    right: Box::new((*b.right)@),
                    span,
                };
                match emit_expr(m) {
                    Ok(t) => r is Ok && final(self).out@ == old(self).out@ + t,
                    Err(x) => r matches Err(y) && y == x,
                }
            }),
        decreases *b,
    {
        let ghost m = ExprData::Binary {
            op: b.op.value,
            op_span: b.op.span,
            left: Box::new((*b.left)@),
            right: Box::new((*b.right)@),
            span,
        };
        if let BinaryOp::Assign = b.op.value {
            match self.expr(&b.right) {
                Err(e) => {
                    return Err(e);
                },
                Ok(_) => {},
            }
            match &b.left.kind {
                ExprKind::Var(i) => {
                    self.out.append("mov %eax, -");
                    self.slot(*i);
                    self.out.append("(%rbp)\n\t");
                    proof {
                        let rt = emit_expr((*b.right)@)->Ok_0;
                        assert(self.out@ =~= old(self).out@ + (rt + "mov %eax, -"@ + dec_rep(
                            slot_offset(*i as int),
                        ) + "(%rbp)\n\t"@));
                    }
                    Ok(())
                },
                _ => Err(Error { kind: ErrorKind::ExpectedIdent, span: b.left.span }),
            }
        } else {
            match self.expr(&b.left) {
                Err(e) => {
                    return Err(e);
                },
                Ok(_) => {},
            }
            self.out.append("push %rax\n\t");
            match self.expr(&b.right) {
                Err(e) => {
                    return Err(e);
                },
                Ok(_) => {},
            }
            let ghost lt = emit_expr((*b.left)@)->Ok_0;
            let ghost rt = emit_expr((*b.right)@)->Ok_0;
            match b.op.value {
                BinaryOp::Div => {
                    self.out.append("mov %eax, %ebx\n\t");
                    self.out.append("pop %rax\n\t");
                    self.out.append("mov $0, %edx\n\t");
                    self.out.append("idiv %ebx\n\t");
                    assert(self.out@ =~= old(self).out@ + (lt + "push %rax\n\t"@ + rt
                        + div_text()));
                },
                _ => {
                    self.out.append("pop %rbx\n\t");
                    match b.op.value {
                        BinaryOp::Sub => self.out.append("sub"),
                        BinaryOp::Add => self.out.append("add"),
                        _ => self.out.append("imul"),
                    }
                    self.out.append(" %ebx, %eax\n\t");
                    assert(self.out@ =~= old(self).out@ + (lt + "push %rax\n\t"@ + rt
                        + "pop %rbx\n\t"@ + op_text(b.op.value) + " %ebx, %eax\n\t"@));
                },
            }
            Ok(())
        }
    }

    /// Lowers a call: saves the argument registers beyond the first slot,
    /// marshals the arguments left to right through the stack into the
    /// designated registers, clears the accumulator per the variadic-call
    /// convention, and invokes the routine by symbol name.
    fn call(&mut self, c: &Call, span: Span) -> (r: Result<(), Error>)
        requires
            c.args@.len() <= 6,
            forall|i: int| 0 <= i < c.args@.len() ==> (#[trigger] c.args@[i])@.wf(),
        ensures
            match emit_args(exprs_data(c.args@)) {
                Err(x) => r matches Err(y) && y == x,
                Ok(at) => r is Ok && final(self).out@ == old(self).out@ + (save_regs(
                    c.args@.len() as int,
                ) + at + load_regs(c.args@.len() as int) + "mov $0, %eax\n\t"@ + "call "@ + c.name@
                    + "\n\t"@ + restore_regs(c.args@.len() as int)),
            },
        decreases *c,
    {
        let n = c.args.len();
        let mut i: usize = 1;
        while i < n
            invariant
                1 <= i <= n || (n == 0 && i == 1),
                n == c.args@.len() <= 6,
                self.out@ == old(self).out@ + save_regs(i as int),
            decreases n - i,
        {
            self.out.append("push %");
            self.out.append(reg(i));
            self.out.append("\n\t");
            i = i + 1;
            assert(self.out@ =~= old(self).out@ + save_regs(i as int));
        }
        proof {
            if n == 0 {
                assert(save_regs(0int) =~= save_regs(1int));
            }
            assert(self.out@ =~= old(self).out@ + save_regs(n as int));
        }
        proof {
            assert(c.args@.subrange(0, c.args@.len() as int) =~= c.args@);
            assert(decreases_to!(*c => c.args));
            assert(decreases_to!(c.args => c.args@));
            assert(decreases_to!(*c => c.args@));
        }
        match self.args_into(&c.args, 0) {
            Err(e) => {
                return Err(e);
            },
            Ok(_) => {},
        }
        let ghost at = emit_args(exprs_data(c.args@))->Ok_0;
        let ghost out2 = self.out@;
        let mut j: usize = n;
        while j > 0
            invariant
                j <= n,
                n == c.args@.len() <= 6,
                out2 + load_regs(n as int) == self.out@ + load_regs(j as int),
            decreases j,
        {
            j = j - 1;
            self.out.append("pop %");
            self.out.append(reg(j));
            self.out.append("\n\t");
            assert(out2 + load_regs(n as int) =~= self.out@ + load_regs(j as int));
        }
        proof {
            assert(self.out@ =~= out2 + load_regs(n as int));
        }
        self.out.append("mov $0, %eax\n\t");
        self.out.append("call ");
        self.out.append(c.name.as_str());
        self.out.append("\n\t");
        let ghost out3 = self.out@;
        let mut k: usize = n;
        while k > 1
            invariant
                k <= n || (n == 0 && k == 0),
                n == c.args@.len() <= 6,
                out3 + restore_regs(n as int) == self.out@ + restore_regs(k as int),
            decreases k,
        {
            k = k - 1;
            self.out.append("pop %");
            self.out.append(reg(k));
            self.out.append("\n\t");
            assert(out3 + restore_regs(n as int) =~= self.out@ + restore_regs(k as int));
        }
        proof {
            assert(self.out@ =~= out3 + restore_regs(n as int));
            assert(self.out@ =~= old(self).out@ + (save_regs(n as int) + at + load_regs(n as int)
                + "mov $0, %eax\n\t"@ + "call "@ + c.name@ + "\n\t"@ + restore_regs(n as int)));
        }
        Ok(())
    }

    /// Marshals the arguments from index `from` on: each is evaluated into
    /// the accumulator and pushed.
    fn args_into(&mut self, args: &Vec<Expr>, from: usize) -> (r: Result<(), Error>)
        requires
            from <= args.len(),
            forall|i: int| 0 <= i < args@.len() ==> (#[trigger] args@[i])@.wf(),
        ensures
            match emit_args(exprs_data(args@.subrange(from as int, args@.len() as int))) {
                Err(x) => r matches Err(y) && y == x,
                Ok(t) => r is Ok && final(self).out@ == old(self).out@ + t,
            },
        decreases args@.subrange(from as int, args@.len() as int),
    {
        let ghost rest = args@.subrange(from as int, args@.len() as int);
        proof {
            lemma_exprs_data(rest);
        }
        if from == args.len() {
            proof {
                assert(exprs_data(rest).len() == 0);
                assert(self.out@ =~= self.out@ + Seq::<char>::empty());
            }
            return Ok(());
        }
        proof {
            assert(rest[0] == args@[from as int]);
            assert(exprs_data(rest)[0] == args@[from as int]@);
        }
        match self.expr(&args[from]) {
            Err(e) => {
                return Err(e);
            },
            Ok(_) => {},
        }
        self.out.append("push %rax\n\t");
        proof {
            assert(decreases_to!(rest => rest.subrange(1, rest.len() as int)));
            assert(rest.subrange(1, rest.len() as int) =~= args@.subrange(
                from as int + 1,
                args@.len() as int,
            ));
            lemma_exprs_data(rest.subrange(1, rest.len() as int));
            lemma_exprs_data(args@.subrange(from as int + 1, args@.len() as int));
            assert(exprs_data(rest).subrange(1, exprs_data(rest).len() as int) =~= exprs_data(
                args@.subrange(from as int + 1, args@.len() as int),
            ));
        }
        let ghost head_t = emit_expr(args@[from as int]@)->Ok_0;
        match self.args_into(args, from + 1) {
            Err(e) => {
                return Err(e);
            },
            Ok(_) => {},
        }
        proof {
            let rest_t = emit_args(
                exprs_data(args@.subrange(from as int + 1, args@.len() as int)),
            )->Ok_0;
            assert(self.out@ =~= old(self).out@ + (head_t + "push %rax\n\t"@ + rest_t));
        }
        Ok(())
    }

    /// Lowers a whole program into assembly text appended to the buffer the
    /// generator was made with: the process entry point, the `main`
    /// prologue, each statement in order, and the epilogue.
    pub fn write(self, ast: &Ast) -> (r: Result<String, Error>)
        requires
            ast@.wf(),
        ensures
            match emit_program(ast@) {
                Ok(t) => r matches Ok(s) && s@ == self.out@ + t,
                Err(e) => r matches Err(x) && x == e,
            },
    {
        let ghost base = self.out@;
        let mut this = self;
        this.entry();
        this.start_main();
        let ghost pre = base + entry_text() + start_main_text();
        let ghost all = ast@.exprs;
        let mut i: usize = 0;
        let ghost mut done: Seq<char> = Seq::empty();
        proof {
            assert(this.out@ =~= pre + done);
            assert(all.subrange(0, all.len() as int) =~= all);
            match emit_stmts(all) {
                Ok(t) => {
                    assert(Seq::<char>::empty() + t =~= t);
                },
                Err(_) => {},
            }
        }
        while i < ast.exprs.len()
            invariant
                i <= ast.exprs.len(),
                all == exprs_model(ast.exprs@),
                ast@.wf(),
                this.out@ == pre + done,
                match emit_stmts(all.subrange(i as int, all.len() as int)) {
                    Ok(t) => emit_stmts(all) == Ok::<Seq<char>, Error>(done + t),
                    Err(e) => emit_stmts(all) == Err::<Seq<char>, Error>(e),
                },
            decreases ast.exprs.len() - i,
        {
            let ghost rest = all.subrange(i as int, all.len() as int);
            proof {
                assert(rest[0] == all[i as int]);
                assert(all[i as int] == ast.exprs@[i as int]@);
            }
            match this.expr(&ast.exprs[i]) {
                Err(e) => {
                    return Err(e);
                },
                Ok(_) => {},
            }
            proof {
                let t = emit_expr(all[i as int])->Ok_0;
                assert(rest.subrange(1, rest.len() as int) =~= all.subrange(
                    i as int + 1,
                    all.len() as int,
                ));
                let done0 = done;
                done = done + t;
                assert(this.out@ =~= pre + done);
                match emit_stmts(all.subrange(i as int + 1, all.len() as int)) {
                    Ok(t2) => {
                        assert((done0 + t) + t2 =~= done0 + (t + t2));
                    },
                    Err(_) => {},
                }
            }
            i = i + 1;
        }
        proof {
            assert(all.subrange(i as int, all.len() as int).len() == 0);
            assert(emit_stmts(all) == Ok::<Seq<char>, Error>(done + Seq::<char>::empty()));
            assert(done + Seq::<char>::empty() =~= done);
        }
        this.end_main();
        proof {
            assert(this.out@ =~= base + (entry_text() + start_main_text() + done
                + end_main_text()));
        }
        Ok(this.out)
    }
}

} // verus!
