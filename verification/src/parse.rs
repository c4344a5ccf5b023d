use vstd::prelude::*;

use crate::error::Report;
use crate::lex::{
    self, lemma_run_end, lemma_scan_bounds, lex_nonws, CharClass, Lexer, Scan, Token, TokenData,
    TokenKind,
};
use crate::span::{Span, Spanned, WithSpan};
use crate::text::str_eq;
use vstd::string::{StrSliceExecFns, StringExecFns};

verus! {

// ---------------------------------------------------------------------------
// The expression tree
// ---------------------------------------------------------------------------

/// A parsed program: its statements in order, and the table of variable
/// slots accumulated while parsing them.
#[derive(Debug)]
pub struct Ast {
    pub exprs: Vec<Expr>,
    pub vars: Vec<Var>,
}

/// One variable slot; its index in the table is its slot index.
#[derive(Debug)]
pub struct Var {
    name: String,
}

impl Var {
    pub fn name(&self) -> (n: &str)
        ensures
            n@ == self@,
    {
        self.name.as_str()
    }
}

impl View for Var {
    type V = Seq<char>;

    closed spec fn view(&self) -> Seq<char> {
        self.name@
    }
}

#[derive(Debug)]
pub struct Expr {
    pub kind: ExprKind,
    pub span: Span,
}

#[derive(Debug)]
pub enum ExprKind {
    Lit(WithSpan<Lit>),
    Binary(BinaryExpr),
    /// A reference to a variable, resolved to its slot index.
    Var(usize),
    Call(Call),
}

#[derive(Debug)]
pub enum Lit {
    Num(usize),
    String(String),
}

#[derive(Debug, PartialEq, Eq, Clone, Copy)]
pub enum BinaryOp {
    Sub,
    Add,
    Mul,
    Div,
    Assign,
}

#[derive(Debug)]
pub struct BinaryExpr {
    pub left: Box<Expr>,
    pub op: WithSpan<BinaryOp>,
    pub right: Box<Expr>,
}

/// A call of an external routine by symbol name.
#[derive(Debug)]
pub struct Call {
    pub name: String,
    pub args: Vec<Expr>,
}

impl BinaryOp {
    pub open spec fn spec_precedence(self) -> int {
        match self {
            BinaryOp::Assign => 1,
            BinaryOp::Sub | BinaryOp::Add => 2,
            BinaryOp::Mul | BinaryOp::Div => 3,
        }
    }

    fn precedence(&self) -> (p: usize)
        ensures
            p == self.spec_precedence(),
    {
        match self {
            BinaryOp::Assign => 1,
            BinaryOp::Sub | BinaryOp::Add => 2,
            BinaryOp::Mul | BinaryOp::Div => 3,
        }
    }
}

// ---------------------------------------------------------------------------
// The mathematical model of expression trees
// ---------------------------------------------------------------------------

pub enum LitData {
    Num(nat),
    Str(Seq<char>),
}

/// The mathematical content of an expression tree.
pub enum ExprData {
    Lit { val: LitData, lit_span: Span, span: Span },
    Binary { op: BinaryOp, op_span: Span, left: Box<ExprData>, right: Box<ExprData>, span: Span },
    Var { idx: int, span: Span },
    Call { name: Seq<char>, args: Seq<ExprData>, span: Span },
}

impl ExprData {
    pub open spec fn span(self) -> Span {
        match self {
            ExprData::Lit { span, .. } => span,
            ExprData::Binary { span, .. } => span,
            ExprData::Var { span, .. } => span,
            ExprData::Call { span, .. } => span,
        }
    }

    /// Well-formedness for code generation: every call marshals at most as
    /// many arguments as there are integer argument registers.
    pub open spec fn wf(self) -> bool
        decreases self,
    {
        match self {
            ExprData::Lit { .. } => true,
            ExprData::Var { .. } => true,
            ExprData::Binary { left, right, .. } => left.wf() && right.wf(),
            ExprData::Call { args, .. } => args.len() <= 6 && (forall|i: int|
                0 <= i < args.len() ==> (#[trigger] args[i]).wf()),
        }
    }
}

/// The models of a sequence of expressions, element by element.
pub open spec fn exprs_data(s: Seq<Expr>) -> Seq<ExprData>
    decreases s, 0int,
{
    if s.len() == 0 {
        Seq::empty()
    } else {
        seq![s[0].model()] + exprs_data(s.subrange(1, s.len() as int))
    }
}

impl Expr {
    pub open spec fn model(self) -> ExprData
        decreases self, 1int,
    {
        match self.kind {
            ExprKind::Lit(ws) => ExprData::Lit {
                val: match ws.value {
                    Lit::Num(n) => LitData::Num(n as nat),
                    Lit::String(s) => LitData::Str(s@),
                },
                lit_span: ws.span,
                span: self.span,
            },
            ExprKind::Binary(b) => ExprData::Binary {
                op: b.op.value,
                op_span: b.op.span,
                left: Box::new((*b.left).model()),
                right: Box::new((*b.right).model()),
                span: self.span,
            },
            ExprKind::Var(i) => ExprData::Var { idx: i as int, span: self.span },
            ExprKind::Call(c) => ExprData::Call {
                name: c.name@,
                args: exprs_data(c.args@),
                span: self.span,
            },
        }
    }
}

impl View for Expr {
    type V = ExprData;

    open spec fn view(&self) -> ExprData {
        self.model()
    }
}

/// An expression's model carries the expression's own span.
pub proof fn lemma_model_span(e: &Expr)
    ensures
        e@.span() == e.span,
{
    match e.kind {
        ExprKind::Lit(_) => {},
        ExprKind::Binary(_) => {},
        ExprKind::Var(_) => {},
        ExprKind::Call(_) => {},
    }
}

pub open spec fn exprs_model(s: Seq<Expr>) -> Seq<ExprData> {
    s.map_values(|e: Expr| e@)
}

pub open spec fn vars_model(s: Seq<Var>) -> Seq<Seq<char>> {
    s.map_values(|v: Var| v@)
}

/// The models of a sequence of expressions, element by element.
pub proof fn lemma_exprs_data(s: Seq<Expr>)
    ensures
        exprs_data(s).len() == s.len(),
        forall|i: int| 0 <= i < s.len() ==> exprs_data(s)[i] == #[trigger] s[i]@,
    decreases s.len(),
{
    if s.len() > 0 {
        let rest = s.subrange(1, s.len() as int);
        lemma_exprs_data(rest);
        assert forall|i: int| 0 <= i < s.len() implies exprs_data(s)[i] == #[trigger] s[i]@ by {
            if i > 0 {
                assert(rest[i - 1] == s[i]);
                assert(exprs_data(s)[i] == exprs_data(rest)[i - 1]);
            }
        }
    }
}

pub struct AstData {
    pub exprs: Seq<ExprData>,
    pub vars: Seq<Seq<char>>,
}

impl AstData {
    pub open spec fn wf(self) -> bool {
        forall|i: int| 0 <= i < self.exprs.len() ==> #[trigger] self.exprs[i].wf()
    }
}

impl View for Ast {
    type V = AstData;

    open spec fn view(&self) -> AstData {
        AstData { exprs: exprs_model(self.exprs@), vars: vars_model(self.vars@) }
    }
}

// ---------------------------------------------------------------------------
// Parse errors
// ---------------------------------------------------------------------------

#[derive(Debug, PartialEq, Eq, Clone, Copy)]
pub struct Error {
    pub kind: ErrorKind,
    pub span: Span,
}

impl Error {
    pub fn new(kind: ErrorKind, span: Span) -> (e: Error)
        ensures
            e == (Error { kind, span }),
    {
        Error { kind, span }
    }
}

#[derive(Debug, PartialEq, Eq, Clone, Copy)]
pub enum ErrorKind {
    ExpectedNumber,
    ExpectedOperator,
    ExpectedExpression,
    UnexpectedEof,
    UnterminatedExpression,
    Lex(lex::Error),
}

/// A lexical error surfaces through the parser wrapped, its span unchanged.
pub open spec fn wrap_lex(e: lex::Error) -> Error {
    Error { kind: ErrorKind::Lex(e), span: e.span }
}

// ---------------------------------------------------------------------------
// The parser model: precedence climbing over the token stream
// ---------------------------------------------------------------------------

/// The binary operator a token stands for, if any.
pub open spec fn op_of(kind: TokenData) -> Option<BinaryOp> {
    match kind {
        TokenData::Add => Some(BinaryOp::Add),
        TokenData::Sub => Some(BinaryOp::Sub),
        TokenData::Mul => Some(BinaryOp::Mul),
        TokenData::Div => Some(BinaryOp::Div),
        TokenData::Assign => Some(BinaryOp::Assign),
        _ => None,
    }
}

/// The slot of `name` in the variable table: the first index holding it.
pub open spec fn var_slot(vars: Seq<Seq<char>>, name: Seq<char>) -> Option<int>
    decreases vars.len(),
{
    if vars.len() == 0 {
        None
    } else if vars.first() == name {
        Some(0)
    } else {
        match var_slot(vars.drop_first(), name) {
            Some(i) => Some(i + 1),
            None => None,
        }
    }
}

pub proof fn lemma_var_slot(vars: Seq<Seq<char>>, name: Seq<char>)
    ensures
        match var_slot(vars, name) {
            Some(i) => 0 <= i < vars.len() && vars[i] == name && (forall|j: int|
                0 <= j < i ==> vars[j] != name),
            None => forall|j: int| 0 <= j < vars.len() ==> vars[j] != name,
        },
    decreases vars.len(),
{
    if vars.len() > 0 && vars.first() != name {
        lemma_var_slot(vars.drop_first(), name);
        assert forall|j: int| 1 <= j < vars.len() implies vars[j] == vars.drop_first()[j - 1] by {}
    }
}

pub enum PrimaryResult {
    AtEof,
    Failed(Error),
    Parsed { e: ExprData, vars: Seq<Seq<char>> },
}

pub enum ExprResult {
    AtEof,
    Failed(Error),
    Parsed { e: ExprData, n: nat, vars: Seq<Seq<char>> },
}

pub enum ClimbResult {
    Failed(Error),
    Parsed { e: ExprData, n: nat, vars: Seq<Seq<char>> },
}

pub enum StmtsResult {
    Failed(Error),
    Parsed { exprs: Seq<ExprData>, vars: Seq<Seq<char>> },
}

/// Parsing a primary expression: one literal or identifier token. An
/// identifier is resolved to its slot in the variable table, appending an
/// unseen name at the next free index.
pub open spec fn spec_primary(ts: Seq<Scan>, vars: Seq<Seq<char>>) -> PrimaryResult {
    if ts.len() == 0 {
        PrimaryResult::AtEof
    } else {
        match ts[0] {
            Scan::Fail { err } => PrimaryResult::Failed(wrap_lex(err)),
            Scan::Token { kind, span } => match kind {
                TokenData::Num(v) => PrimaryResult::Parsed {
                    e: ExprData::Lit { val: LitData::Num(v), lit_span: span, span },
                    vars,
                },
                TokenData::Str(s) => PrimaryResult::Parsed {
                    e: ExprData::Lit { val: LitData::Str(s), lit_span: span, span },
                    vars,
                },
                TokenData::Ident(name) => match var_slot(vars, name) {
                    Some(i) => PrimaryResult::Parsed { e: ExprData::Var { idx: i, span }, vars },
                    None => PrimaryResult::Parsed {
                        e: ExprData::Var { idx: vars.len() as int, span },
                        vars: vars.push(name),
                    },
                },
                _ => PrimaryResult::Failed(
                    Error { kind: ErrorKind::ExpectedExpression, span },
                ),
            },
        }
    }
}

/// Parsing one expression at minimum precedence `min_prec`: a primary
/// expression, then the climbing loop. `n` counts the tokens consumed.
pub open spec fn spec_expr(ts: Seq<Scan>, vars: Seq<Seq<char>>, min_prec: int) -> ExprResult
    decreases ts.len(), 1int,
{
    match spec_primary(ts, vars) {
        PrimaryResult::AtEof => ExprResult::AtEof,
        PrimaryResult::Failed(e) => ExprResult::Failed(e),
        PrimaryResult::Parsed { e, vars } => match spec_climb(ts.skip(1), vars, e, min_prec) {
            ClimbResult::Failed(e) => ExprResult::Failed(e),
            ClimbResult::Parsed { e, n, vars } => ExprResult::Parsed { e, n: n + 1, vars },
        },
    }
}

/// The climbing loop: while the next token is a binary operator of
/// precedence at least `min_prec`, consume it, parse the right-hand side at
/// one precedence level higher (left-associative binding), and fold it into
/// a binary node spanning both sides.
pub open spec fn spec_climb(
    ts: Seq<Scan>,
    vars: Seq<Seq<char>>,
    left: ExprData,
    min_prec: int,
) -> ClimbResult
    decreases ts.len(), 0int,
{
    if ts.len() == 0 {
        ClimbResult::Parsed { e: left, n: 0, vars }
    } else {
        match ts[0] {
            Scan::Fail { err } => ClimbResult::Failed(wrap_lex(err)),
            Scan::Token { kind, span } => {
                if kind is Semi {
                    ClimbResult::Parsed { e: left, n: 0, vars }
                } else {
                    match op_of(kind) {
                        None => ClimbResult::Failed(
                            Error { kind: ErrorKind::ExpectedOperator, span },
                        ),
                        Some(op) => {
                            if op.spec_precedence() < min_prec {
                                ClimbResult::Parsed { e: left, n: 0, vars }
                            } else {
                                match spec_expr(ts.skip(1), vars, op.spec_precedence() + 1) {
                                    ExprResult::AtEof => ClimbResult::Failed(
                                        Error {
                                            kind: ErrorKind::UnexpectedEof,
                                            span: Span::spec_eof(),
                                        },
                                    ),
                                    ExprResult::Failed(e) => ClimbResult::Failed(e),
                                    ExprResult::Parsed { e: right, n, vars } => {
                                        let combined = ExprData::Binary {
                                            op,
                                            op_span: span,
                                            left: Box::new(left),
                                            right: Box::new(right),
                                            span: left.span().spec_join(right.span()),
                                        };
                                        if 1 + n <= ts.len() {
                                            match spec_climb(
                                                ts.skip(1 + n as int),
                                                vars,
                                                combined,
                                                min_prec,
                                            ) {
                                                ClimbResult::Failed(e) => ClimbResult::Failed(e),
                                                ClimbResult::Parsed { e, n: m, vars } =>
                                                    ClimbResult::Parsed {
                                                    e,
                                                    n: 1 + n + m,
                                                    vars,
                                                },
                                            }
                                        } else {
                                            // a right-hand parse never consumes more than the
                                            // stream holds, so this branch is unreachable
                                            ClimbResult::Parsed { e: combined, n: 1 + n, vars }
                                        }
                                    },
                                }
                            }
                        },
                    }
                }
            },
        }
    }
}

/// Parsing a whole program: a sequence of statements, each one expression
/// closed by a mandatory semicolon.
pub open spec fn spec_stmts(ts: Seq<Scan>, vars: Seq<Seq<char>>) -> StmtsResult
    decreases ts.len(),
{
    match spec_expr(ts, vars, 0) {
        ExprResult::AtEof => StmtsResult::Parsed { exprs: Seq::empty(), vars },
        ExprResult::Failed(e) => StmtsResult::Failed(e),
        ExprResult::Parsed { e, n, vars } => {
            if n < ts.len() {
                match ts[n as int] {
                    Scan::Fail { err } => StmtsResult::Failed(wrap_lex(err)),
                    Scan::Token { kind: TokenData::Semi, .. } => {
                        match spec_stmts(ts.skip(n + 1 as int), vars) {
                            StmtsResult::Failed(e) => StmtsResult::Failed(e),
                            StmtsResult::Parsed { exprs, vars } => StmtsResult::Parsed {
                                exprs: seq![e] + exprs,
                                vars,
                            },
                        }
                    },
                    Scan::Token { span, .. } => StmtsResult::Failed(
                        Error { kind: ErrorKind::UnterminatedExpression, span },
                    ),
                }
            } else {
                StmtsResult::Failed(
                    Error { kind: ErrorKind::UnterminatedExpression, span: Span::spec_eof() },
                )
            }
        },
    }
}

/// Every element of the token stream covers a non-empty region inside a
/// source of `len` characters.
pub open spec fn scans_bounded(ts: Seq<Scan>, len: nat) -> bool {
    forall|j: int|
        0 <= j < ts.len() ==> {
            let sp = (#[trigger] ts[j]).span();
            sp.start < sp.end <= len
        }
}

proof fn lemma_scans_bounded_skip(ts: Seq<Scan>, len: nat, k: int)
    requires
        scans_bounded(ts, len),
        0 <= k <= ts.len(),
    ensures
        scans_bounded(ts.skip(k), len),
{
    assert forall|j: int| 0 <= j < ts.skip(k).len() implies {
        let sp = (#[trigger] ts.skip(k)[j]).span();
        sp.start < sp.end <= len
    } by {
        assert(ts.skip(k)[j] == ts[j + k]);
        assert(ts[j + k].span().start < ts[j + k].span().end <= len);
    }
}

pub proof fn lemma_primary_error_valid(ts: Seq<Scan>, vars: Seq<Seq<char>>, src: Seq<char>)
    requires
        scans_bounded(ts, src.len()),
    ensures
        spec_primary(ts, vars) matches PrimaryResult::Failed(e) ==> e.valid_for(src),
{
    if ts.len() > 0 {
        assert(ts[0].span().start < ts[0].span().end <= src.len());
    }
}

pub proof fn lemma_expr_error_valid(ts: Seq<Scan>, vars: Seq<Seq<char>>, min_prec: int, src: Seq<char>)
    requires
        scans_bounded(ts, src.len()),
    ensures
        spec_expr(ts, vars, min_prec) matches ExprResult::Failed(e) ==> e.valid_for(src),
    decreases ts.len(), 1int,
{
    lemma_primary_error_valid(ts, vars, src);
    match spec_primary(ts, vars) {
        PrimaryResult::Parsed { e, vars: v1 } => {
            lemma_scans_bounded_skip(ts, src.len(), 1);
            lemma_climb_error_valid(ts.skip(1), v1, e, min_prec, src);
        },
        _ => {},
    }
}

pub proof fn lemma_climb_error_valid(
    ts: Seq<Scan>,
    vars: Seq<Seq<char>>,
    left: ExprData,
    min_prec: int,
    src: Seq<char>,
)
    requires
        scans_bounded(ts, src.len()),
    ensures
        spec_climb(ts, vars, left, min_prec) matches ClimbResult::Failed(e) ==> e.valid_for(src),
    decreases ts.len(), 0int,
{
    if ts.len() > 0 {
        assert(ts[0].span().start < ts[0].span().end <= src.len());
        match ts[0] {
            Scan::Token { kind, span } => {
                match op_of(kind) {
                    Some(op) => {
                        if !(kind is Semi) && op.spec_precedence() >= min_prec {
                            lemma_scans_bounded_skip(ts, src.len(), 1);
                            lemma_expr_error_valid(ts.skip(1), vars, op.spec_precedence() + 1, src);
                            match spec_expr(ts.skip(1), vars, op.spec_precedence() + 1) {
                                ExprResult::Parsed { e: right, n, vars: vars2 } => {
                                    let combined = ExprData::Binary {
                                        op,
                                        op_span: span,
                                        left: Box::new(left),
                                        right: Box::new(right),
                                        span: left.span().spec_join(right.span()),
                                    };
                                    if 1 + n <= ts.len() {
                                        lemma_scans_bounded_skip(ts, src.len(), 1 + n as int);
                                        lemma_climb_error_valid(
                                            ts.skip(1 + n as int),
                                            vars2,
                                            combined,
                                            min_prec,
                                            src,
                                        );
                                    }
                                },
                                _ => {},
                            }
                        }
                    },
                    None => {},
                }
            },
            _ => {},
        }
    }
}

pub proof fn lemma_stmts_error_valid(ts: Seq<Scan>, vars: Seq<Seq<char>>, src: Seq<char>)
    requires
        scans_bounded(ts, src.len()),
    ensures
        spec_stmts(ts, vars) matches StmtsResult::Failed(e) ==> e.valid_for(src),
    decreases ts.len(),
{
    lemma_expr_error_valid(ts, vars, 0, src);
    match spec_expr(ts, vars, 0) {
        ExprResult::Parsed { e, n, vars: v1 } => {
            if n < ts.len() {
                assert(ts[n as int].span().start < ts[n as int].span().end <= src.len());
                match ts[n as int] {
                    Scan::Token { kind: TokenData::Semi, .. } => {
                        lemma_scans_bounded_skip(ts, src.len(), n as int + 1);
                        lemma_stmts_error_valid(ts.skip(n as int + 1), v1, src);
                    },
                    _ => {},
                }
            }
        },
        _ => {},
    }
}

/// Error locality: every error the parser reports against a source text is
/// anchored inside it, or carries the end-of-input sentinel, so the
/// reporter can always format it.
pub proof fn lemma_parse_errors_reportable(src: Seq<char>)
    requires
        src.len() <= usize::MAX,
    ensures
        spec_stmts(lex_nonws(src, 0), Seq::<Seq<char>>::empty()) matches StmtsResult::Failed(e)
            ==> e.valid_for(src),
{
    crate::lex::lemma_lex_nonws_bounded(src, 0);
    lemma_stmts_error_valid(lex_nonws(src, 0), Seq::empty(), src);
}

proof fn lemma_prefix_trans(a: Seq<Seq<char>>, b: Seq<Seq<char>>, c: Seq<Seq<char>>)
    requires
        a.is_prefix_of(b),
        b.is_prefix_of(c),
    ensures
        a.is_prefix_of(c),
{
    assert(a =~= c.subrange(0, a.len() as int));
}

/// Slot stability at one step: resolving an identifier either leaves the
/// table unchanged or appends the unseen name at the next free index.
pub proof fn lemma_primary_table_stable(ts: Seq<Scan>, vars: Seq<Seq<char>>)
    ensures
        spec_primary(ts, vars) matches PrimaryResult::Parsed { vars: v2, .. } ==> vars.is_prefix_of(
            v2,
        ),
{
    assert(vars =~= vars.subrange(0, vars.len() as int));
    if ts.len() > 0 {
        match ts[0] {
            Scan::Token { kind: TokenData::Ident(name), .. } => {
                assert(vars =~= vars.push(name).subrange(0, vars.len() as int));
            },
            _ => {},
        }
    }
}

/// Slot stability: once a name has a slot in the variable table, parsing
/// more of the input never changes it; the table only grows at the end.
pub proof fn lemma_expr_table_stable(ts: Seq<Scan>, vars: Seq<Seq<char>>, min_prec: int)
    ensures
        spec_expr(ts, vars, min_prec) matches ExprResult::Parsed { vars: v2, .. }
            ==> vars.is_prefix_of(v2),
    decreases ts.len(), 1int,
{
    lemma_primary_table_stable(ts, vars);
    match spec_primary(ts, vars) {
        PrimaryResult::Parsed { e, vars: v1 } => {
            lemma_climb_table_stable(ts.skip(1), v1, e, min_prec);
            match spec_climb(ts.skip(1), v1, e, min_prec) {
                ClimbResult::Parsed { vars: v2, .. } => {
                    lemma_prefix_trans(vars, v1, v2);
                },
                _ => {},
            }
        },
        _ => {},
    }
}

pub proof fn lemma_climb_table_stable(
    ts: Seq<Scan>,
    vars: Seq<Seq<char>>,
    left: ExprData,
    min_prec: int,
)
    ensures
        spec_climb(ts, vars, left, min_prec) matches ClimbResult::Parsed { vars: v2, .. }
            ==> vars.is_prefix_of(v2),
    decreases ts.len(), 0int,
{
    assert(vars =~= vars.subrange(0, vars.len() as int));
    if ts.len() > 0 {
        match ts[0] {
            Scan::Token { kind, span } => {
                match op_of(kind) {
                    Some(op) => {
                        if !(kind is Semi) && op.spec_precedence() >= min_prec {
                            lemma_expr_table_stable(ts.skip(1), vars, op.spec_precedence() + 1);
                            match spec_expr(ts.skip(1), vars, op.spec_precedence() + 1) {
                                ExprResult::Parsed { e: right, n, vars: vars2 } => {
                                    let combined = ExprData::Binary {
                                        op,
                                        op_span: span,
                                        left: Box::new(left),
                                        right: Box::new(right),
                                        span: left.span().spec_join(right.span()),
                                    };
                                    if 1 + n <= ts.len() {
                                        lemma_climb_table_stable(
                                            ts.skip(1 + n as int),
                                            vars2,
                                            combined,
                                            min_prec,
                                        );
                                        match spec_climb(
                                            ts.skip(1 + n as int),
                                            vars2,
                                            combined,
                                            min_prec,
                                        ) {
                                            ClimbResult::Parsed { vars: v3, .. } => {
                                                lemma_prefix_trans(vars, vars2, v3);
                                            },
                                            _ => {},
                                        }
                                    }
                                },
                                _ => {},
                            }
                        }
                    },
                    None => {},
                }
            },
            _ => {},
        }
    }
}

/// Slot stability over a whole program: the table a statement list ends
/// with extends, without reordering, every table seen along the way.
pub proof fn lemma_stmts_table_stable(ts: Seq<Scan>, vars: Seq<Seq<char>>)
    ensures
        spec_stmts(ts, vars) matches StmtsResult::Parsed { vars: v2, .. } ==> vars.is_prefix_of(
            v2,
        ),
    decreases ts.len(),
{
    assert(vars =~= vars.subrange(0, vars.len() as int));
    lemma_expr_table_stable(ts, vars, 0);
    match spec_expr(ts, vars, 0) {
        ExprResult::Parsed { e, n, vars: v1 } => {
            if n < ts.len() {
                match ts[n as int] {
                    Scan::Token { kind: TokenData::Semi, .. } => {
                        lemma_stmts_table_stable(ts.skip(n as int + 1), v1);
                        match spec_stmts(ts.skip(n as int + 1), v1) {
                            StmtsResult::Parsed { vars: v2, .. } => {
                                lemma_prefix_trans(vars, v1, v2);
                            },
                            _ => {},
                        }
                    },
                    _ => {},
                }
            }
        },
        _ => {},
    }
}

/// A primary expression is well-formed for code generation.
pub proof fn lemma_primary_wf(ts: Seq<Scan>, vars: Seq<Seq<char>>)
    ensures
        spec_primary(ts, vars) matches PrimaryResult::Parsed { e, .. } ==> e.wf(),
{
}

/// Whatever the parser builds is well-formed for code generation: it
/// produces only literals, variable references, and binary nodes.
pub proof fn lemma_expr_wf(ts: Seq<Scan>, vars: Seq<Seq<char>>, min_prec: int)
    ensures
        spec_expr(ts, vars, min_prec) matches ExprResult::Parsed { e, .. } ==> e.wf(),
    decreases ts.len(), 1int,
{
    lemma_primary_wf(ts, vars);
    match spec_primary(ts, vars) {
        PrimaryResult::Parsed { e, vars: v1 } => {
            lemma_climb_wf(ts.skip(1), v1, e, min_prec);
        },
        _ => {},
    }
}

pub proof fn lemma_climb_wf(ts: Seq<Scan>, vars: Seq<Seq<char>>, left: ExprData, min_prec: int)
    requires
        left.wf(),
    ensures
        spec_climb(ts, vars, left, min_prec) matches ClimbResult::Parsed { e, .. } ==> e.wf(),
    decreases ts.len(), 0int,
{
    if ts.len() > 0 {
        match ts[0] {
            Scan::Token { kind, span } => {
                match op_of(kind) {
                    Some(op) => {
                        if !(kind is Semi) && op.spec_precedence() >= min_prec {
                            lemma_expr_wf(ts.skip(1), vars, op.spec_precedence() + 1);
                            match spec_expr(ts.skip(1), vars, op.spec_precedence() + 1) {
                                ExprResult::Parsed { e: right, n, vars: vars2 } => {
                                    let combined = ExprData::Binary {
                                        op,
                                        op_span: span,
                                        left: Box::new(left),
                                        right: Box::new(right),
                                        span: left.span().spec_join(right.span()),
                                    };
                                    if 1 + n <= ts.len() {
                                        lemma_climb_wf(
                                            ts.skip(1 + n as int),
                                            vars2,
                                            combined,
                                            min_prec,
                                        );
                                    }
                                },
                                _ => {},
                            }
                        }
                    },
                    None => {},
                }
            },
            _ => {},
        }
    }
}

/// Every statement list the parser builds is well-formed for code
/// generation.
pub proof fn lemma_stmts_wf(ts: Seq<Scan>, vars: Seq<Seq<char>>)
    ensures
        spec_stmts(ts, vars) matches StmtsResult::Parsed { exprs, .. } ==> forall|i: int|
            0 <= i < exprs.len() ==> #[trigger] exprs[i].wf(),
    decreases ts.len(),
{
    lemma_expr_wf(ts, vars, 0);
    match spec_expr(ts, vars, 0) {
        ExprResult::Parsed { e, n, vars: v2 } => {
            if n < ts.len() {
                match ts[n as int] {
                    Scan::Token { kind: TokenData::Semi, .. } => {
                        lemma_stmts_wf(ts.skip(n as int + 1), v2);
                        match spec_stmts(ts.skip(n as int + 1), v2) {
                            StmtsResult::Parsed { exprs: rest, .. } => {
                                assert forall|i: int|
                                    0 <= i < (seq![e] + rest).len() implies #[trigger] (seq![e]
                                    + rest)[i].wf() by {
                                    if i > 0 {
                                        assert((seq![e] + rest)[i] == rest[i - 1]);
                                    }
                                }
                            },
                            _ => {},
                        }
                    },
                    _ => {},
                }
            }
        },
        _ => {},
    }
}

// ---------------------------------------------------------------------------
// Reporting parse errors
// ---------------------------------------------------------------------------

/// The source text an error's span covers, or `EOF` for the sentinel.
pub open spec fn found_text(source: Seq<char>, span: Span) -> Seq<char> {
    if span.is_eof() {
        "EOF"@
    } else {
        source.subrange(span.start as int, span.end as int)
    }
}

fn found<'s>(source: &'s str, span: Span) -> (s: &'s str)
    requires
        span.is_eof() || span.valid_for(source@.len()),
    ensures
        s@ == found_text(source@, span),
{
    if span.start == 0 && span.end == 0 {
        "EOF"
    } else {
        source.substring_char(span.start, span.end)
    }
}

impl Spanned for Error {
    open spec fn spec_span(&self) -> Span {
        self.span
    }

    fn span(&self) -> Span {
        self.span
    }
}

impl Report for Error {
    open spec fn spec_message(&self, source: Seq<char>) -> Seq<char> {
        match self.kind {
            ErrorKind::ExpectedExpression => "Expected expression, found '"@ + found_text(
                source,
                self.span,
            ) + "'"@,
            ErrorKind::ExpectedOperator => "Expected binary operator, found '"@ + found_text(
                source,
                self.span,
            ) + "'"@,
            ErrorKind::ExpectedNumber => "Expected number"@,
            ErrorKind::UnexpectedEof => "Unexpected EOF"@,
            ErrorKind::UnterminatedExpression => "Unterminated expression"@,
            ErrorKind::Lex(e) => e.spec_message(source),
        }
    }

    /// A wrapped lexical error is valid when the inner error is.
    open spec fn valid_for(&self, source: Seq<char>) -> bool {
        &&& (self.span.is_eof() || self.span.valid_for(source.len()))
        &&& match self.kind {
            ErrorKind::Lex(e) => e.valid_for(source),
            _ => true,
        }
    }

    fn message(&self, source: &str) -> (m: String) {
        match self.kind {
            ErrorKind::ExpectedExpression => {
                let mut m = "Expected expression, found '".to_owned();
                m.append(found(source, self.span));
                m.append("'");
                assert(m@ =~= self.spec_message(source@));
                m
            },
            ErrorKind::ExpectedOperator => {
                let mut m = "Expected binary operator, found '".to_owned();
                m.append(found(source, self.span));
                m.append("'");
                assert(m@ =~= self.spec_message(source@));
                m
            },
            ErrorKind::ExpectedNumber => "Expected number".to_owned(),
            ErrorKind::UnexpectedEof => "Unexpected EOF".to_owned(),
            ErrorKind::UnterminatedExpression => "Unterminated expression".to_owned(),
            ErrorKind::Lex(e) => e.message(source),
        }
    }
}

// ---------------------------------------------------------------------------
// The token buffer
// ---------------------------------------------------------------------------

/// A one-token lookahead buffer over the lexer that transparently discards
/// whitespace tokens: neither the parser nor diagnostics ever observe one.
pub struct Tokens<'a> {
    pub lexer: Lexer<'a>,
    /// The holding cell: `None` when no token has been fetched ahead,
    /// `Some(v)` when the lexer's next answer `v` is fetched and pending.
    pub peeked: Option<Option<Result<Token<'a>, lex::Error>>>,
}

impl<'a> Tokens<'a> {
    pub open spec fn wf(&self) -> bool {
        &&& self.lexer.wf()
        &&& match self.peeked {
            Some(Some(Ok(t))) => t.span.start <= t.span.end <= self.lexer.len && !(t.kind@
                is Whitespace) && !self.lexer.failed,
            Some(None) => self.lexer.failed || self.lexer.cursor() == self.lexer.src().len(),
            _ => true,
        }
    }

    pub open spec fn src(&self) -> Seq<char> {
        self.lexer.src()
    }

    /// The tokens still to come: the pending one, if any, then whatever the
    /// lexer yields from its cursor on, whitespace filtered out. The lexer
    /// terminates at its first error, so after a pending error the stream
    /// holds nothing more.
    pub open spec fn stream(&self) -> Seq<Scan> {
        match self.peeked {
            None => if self.lexer.failed {
                Seq::empty()
            } else {
                lex_nonws(self.src(), self.lexer.cursor())
            },
            Some(None) => Seq::empty(),
            Some(Some(Ok(t))) => seq![Scan::Token { kind: t.kind@, span: t.span }] + lex_nonws(
                self.src(),
                self.lexer.cursor(),
            ),
            Some(Some(Err(e))) => seq![Scan::Fail { err: e }],
        }
    }

    /// Fills the holding cell if it is empty and answers its content
    /// without consuming.
    pub fn peek(&mut self) -> (r: Option<Result<Token<'a>, lex::Error>>)
        requires
            old(self).wf(),
        ensures
            final(self).wf(),
            final(self).src() == old(self).src(),
            final(self).stream() == old(self).stream(),
            final(self).peeked == Some(r),
            match r {
                None => final(self).stream().len() == 0,
                Some(Ok(t)) => final(self).stream().len() > 0 && final(self).stream()[0]
                    == (Scan::Token { kind: t.kind@, span: t.span }),
                Some(Err(e)) => final(self).stream().len() > 0 && final(self).stream()[0] == (
                Scan::Fail { err: e }),
            },
    {
        if let Some(p) = &self.peeked {
            return *p;
        }
        let ghost src = self.src();
        let ghost s0 = self.stream();
        loop
            invariant_except_break
                self.peeked is None,
                !self.lexer.failed ==> lex_nonws(src, self.lexer.cursor()) == s0,
                self.lexer.failed ==> s0.len() == 0,
            invariant
                self.wf(),
                self.src() == src,
                0 <= self.lexer.cursor() <= src.len(),
            ensures
                self.wf(),
                self.src() == src,
                self.stream() == s0,
                self.peeked is Some,
                match self.peeked {
                    Some(None) => s0.len() == 0,
                    Some(Some(Ok(t))) => s0.len() > 0 && s0[0] == (Scan::Token {
                        kind: t.kind@,
                        span: t.span,
                    }),
                    Some(Some(Err(e))) => s0.len() > 0 && s0[0] == (Scan::Fail { err: e }),
                    None => false,
                },
            decreases src.len() - self.lexer.cursor(),
        {
            let ghost cur = self.lexer.cursor();
            let t = self.lexer.next();
            match t {
                Some(Ok(tok)) => {
                    proof {
                        lemma_scan_bounds(src, cur);
                    }
                    match tok.kind {
                        TokenKind::Whitespace => {
                            proof {
                                lemma_run_end(src, cur, CharClass::Space);
                                assert(lex_nonws(src, self.lexer.cursor()) == s0);
                            }
                        },
                        _ => {
                            self.peeked = Some(Some(Ok(tok)));
                            proof {
                                assert(self.stream() =~= s0);
                            }
                            break ;
                        },
                    }
                },
                Some(Err(e)) => {
                    self.peeked = Some(Some(Err(e)));
                    proof {
                        assert(self.stream() =~= s0);
                    }
                    break ;
                },
                None => {
                    self.peeked = Some(None);
                    break ;
                },
            }
        }
        match &self.peeked {
            Some(p) => *p,
            None => None,
        }
    }

    /// Drains the holding cell if it is full, else pulls directly from the
    /// lexer; whitespace is filtered either way.
    pub fn next(&mut self) -> (r: Option<Result<Token<'a>, lex::Error>>)
        requires
            old(self).wf(),
        ensures
            final(self).wf(),
            final(self).src() == old(self).src(),
            match r {
                None => old(self).stream().len() == 0 && final(self).stream() == old(self).stream(),
                Some(Ok(t)) => old(self).stream().len() > 0 && old(self).stream()[0] == (
                Scan::Token { kind: t.kind@, span: t.span }) && final(self).stream() == old(self).stream().drop_first(),
                Some(Err(e)) => old(self).stream().len() > 0 && old(self).stream()[0] == (
                Scan::Fail { err: e }),
            },
    {
        let r = self.peek();
        self.peeked = None;
        proof {
            match r {
                Some(Ok(t)) => {
                    assert(self.stream() =~= old(self).stream().drop_first());
                },
                _ => {},
            }
        }
        r
    }
}

// ---------------------------------------------------------------------------
// The parser
// ---------------------------------------------------------------------------

/// A precedence-climbing recursive-descent parser over the token buffer.
/// It builds an expression list and the table of variable slots; both are
/// handed over in the [`Ast`] that [`Parser::parse`] returns.
pub struct Parser<'a> {
    pub tokens: Tokens<'a>,
    pub vars: Vec<Var>,
}

impl<'a> Parser<'a> {
    pub open spec fn wf(&self) -> bool {
        self.tokens.wf()
    }

    pub open spec fn stream(&self) -> Seq<Scan> {
        self.tokens.stream()
    }

    /// The variable table as the sequence of names, in slot order.
    pub open spec fn table(&self) -> Seq<Seq<char>> {
        vars_model(self.vars@)
    }

    pub fn new(lexer: Lexer<'a>) -> (p: Parser<'a>)
        requires
            lexer.wf(),
        ensures
            p.wf(),
            !lexer.failed ==> p.stream() == lex_nonws(lexer.src(), lexer.cursor()),
            lexer.failed ==> p.stream() == Seq::<Scan>::empty(),
            p.table() == Seq::<Seq<char>>::empty(),
    {
        let p = Parser { tokens: Tokens { lexer, peeked: None }, vars: Vec::new() };
        proof {
            assert(p.table() =~= Seq::<Seq<char>>::empty());
        }
        p
    }

    fn peek(&mut self) -> (r: Result<Option<Token<'a>>, lex::Error>)
        requires
            old(self).wf(),
        ensures
            final(self).wf(),
            final(self).stream() == old(self).stream(),
            final(self).table() == old(self).table(),
            match r {
                Ok(None) => final(self).stream().len() == 0,
                Ok(Some(t)) => final(self).stream().len() > 0 && final(self).stream()[0] == (
                Scan::Token { kind: t.kind@, span: t.span }),
                Err(e) => final(self).stream().len() > 0 && final(self).stream()[0] == (
                Scan::Fail { err: e }),
            },
    {
        match self.tokens.peek() {
            None => Ok(None),
            Some(Ok(t)) => Ok(Some(t)),
            Some(Err(e)) => Err(e),
        }
    }

    fn next(&mut self) -> (r: Result<Option<Token<'a>>, lex::Error>)
        requires
            old(self).wf(),
        ensures
            final(self).wf(),
            final(self).table() == old(self).table(),
            match r {
                Ok(None) => old(self).stream().len() == 0 && final(self).stream() == old(self).stream(),
                Ok(Some(t)) => old(self).stream().len() > 0 && old(self).stream()[0] == (
                Scan::Token { kind: t.kind@, span: t.span }) && final(self).stream() == old(self).stream().drop_first(),
                Err(e) => old(self).stream().len() > 0 && old(self).stream()[0] == (Scan::Fail {
                    err: e,
                }),
            },
    {
        match self.tokens.next() {
            None => Ok(None),
            Some(Ok(t)) => Ok(Some(t)),
            Some(Err(e)) => Err(e),
        }
    }

    /// Consumes the token at the head of the stream.
    fn chomp(&mut self)
        requires
            old(self).wf(),
            old(self).stream().len() > 0,
            old(self).stream()[0] matches Scan::Token { .. },
        ensures
            final(self).wf(),
            final(self).stream() == old(self).stream().drop_first(),
            final(self).table() == old(self).table(),
    {
        let _ = self.next();
    }

    /// Resolves `name` to its slot: the first table entry holding it, or a
    /// fresh slot at the next free index for an unseen name.
    fn lookup_or_insert(&mut self, name: &str) -> (i: usize)
        requires
            old(self).wf(),
        ensures
            final(self).wf(),
            final(self).stream() == old(self).stream(),
            match var_slot(old(self).table(), name@) {
                Some(k) => i == k && final(self).table() == old(self).table(),
                None => i == old(self).table().len() && final(self).table() == old(self).table().push(name@),
            },
    {
        let ghost t0 = self.table();
        let n = self.vars.len();
        let mut j: usize = 0;
        while j < n
            invariant
                self.wf(),
                self == old(self),
                n == self.vars.len(),
                j <= n,
                t0 == self.table(),
                forall|k: int| 0 <= k < j ==> t0[k] != name@,
            decreases n - j,
        {
            if str_eq(self.vars[j].name.as_str(), name) {
                proof {
                    lemma_var_slot(t0, name@);
                    assert(t0[j as int] == name@);
                }
                return j;
            }
            assert(t0[j as int] == self.vars@[j as int]@);
            j = j + 1;
        }
        proof {
            lemma_var_slot(t0, name@);
        }
        let i = self.vars.len();
        self.vars.push(Var { name: name.to_owned() });
        proof {
            assert(self.table() =~= t0.push(name@));
        }
        i
    }

    /// Parses a primary expression: a literal or an identifier reference.
    /// `Ok(None)` means the input was exhausted.
    fn primary(&mut self) -> (r: Result<Option<Expr>, Error>)
        requires
            old(self).wf(),
        ensures
            final(self).wf(),
            match spec_primary(old(self).stream(), old(self).table()) {
                PrimaryResult::AtEof => r matches Ok(None) && final(self).stream() == old(self).stream() && final(self).table() == old(self).table(),
                PrimaryResult::Failed(e) => r matches Err(x) && x == e,
                PrimaryResult::Parsed { e, vars } => r matches Ok(Some(x)) && x@ == e && final(self).table() == vars && final(self).stream() == old(self).stream().drop_first(),
            },
    {
        let t = match self.next() {
            Err(e) => {
                return Err(Error { kind: ErrorKind::Lex(e), span: e.span });
            },
            Ok(None) => {
                return Ok(None);
            },
            Ok(Some(t)) => t,
        };
        let kind: ExprKind = match t.kind {
            TokenKind::Num(n) => ExprKind::Lit(WithSpan::new(Lit::Num(n), t.span)),
            TokenKind::Str(s) => ExprKind::Lit(WithSpan::new(Lit::String(s.to_owned()), t.span)),
            TokenKind::Ident(name) => {
                let i = self.lookup_or_insert(name);
                ExprKind::Var(i)
            },
            _ => {
                return Err(Error { kind: ErrorKind::ExpectedExpression, span: t.span });
            },
        };
        Ok(Some(Expr { kind, span: t.span }))
    }

    /// Parses one expression, folding in binary operators of precedence at
    /// least `precedence` by the climbing rule. `Ok(None)` means the input
    /// was exhausted before any token of the expression.
    pub fn expr(&mut self, precedence: usize) -> (r: Result<Option<Expr>, Error>)
        requires
            old(self).wf(),
        ensures
            final(self).wf(),
            match spec_expr(old(self).stream(), old(self).table(), precedence as int) {
                ExprResult::AtEof => r matches Ok(None) && final(self).stream() == old(self).stream() && final(self).table() == old(self).table(),
                ExprResult::Failed(e) => r matches Err(x) && x == e,
                ExprResult::Parsed { e, n, vars } => r matches Ok(Some(x)) && x@ == e && final(self).table() == vars && final(self).stream() == old(self).stream().skip(n as int),
            },
        decreases old(self).stream().len(),
    {
        let ghost s0 = self.stream();
        let ghost v0 = self.table();
        let ghost p = precedence as int;
        let e0 = match self.primary() {
            Err(e) => {
                return Err(e);
            },
            Ok(None) => {
                return Ok(None);
            },
            Ok(Some(e)) => e,
        };
        proof {
            assert(s0.drop_first() =~= s0.skip(1));
        }
        let ghost s1 = self.stream();
        let ghost v1 = self.table();
        let ghost target = spec_climb(s1, v1, e0@, p);
        let mut left = e0;
        let ghost mut c: int = 0;
        proof {
            assert(s1.skip(0) =~= s1);
        }
        loop
            invariant
                self.wf(),
                s0 == old(self).stream(),
                v0 == old(self).table(),
                p == precedence as int,
                0 <= c <= s1.len(),
                self.stream() == s1.skip(c),
                s1 == s0.skip(1),
                s1.len() == s0.len() - 1,
                match spec_climb(self.stream(), self.table(), left@, p) {
                    ClimbResult::Failed(e) => target == ClimbResult::Failed(e),
                    ClimbResult::Parsed { e, n, vars } => target == (ClimbResult::Parsed {
                        e,
                        n: (c + n) as nat,
                        vars,
                    }),
                },
                match target {
                    ClimbResult::Failed(e) => spec_expr(s0, v0, p) == ExprResult::Failed(e),
                    ClimbResult::Parsed { e, n, vars } => spec_expr(s0, v0, p)
                        == (ExprResult::Parsed { e, n: (n + 1) as nat, vars }),
                },
            ensures
                self.wf(),
                0 <= c <= s1.len(),
                self.stream() == s1.skip(c),
                s1 == s0.skip(1),
                target == (ClimbResult::Parsed { e: left@, n: c as nat, vars: self.table() }),
                match target {
                    ClimbResult::Failed(e) => spec_expr(s0, v0, p) == ExprResult::Failed(e),
                    ClimbResult::Parsed { e, n, vars } => spec_expr(s0, v0, p)
                        == (ExprResult::Parsed { e, n: (n + 1) as nat, vars }),
                },
            decreases self.stream().len(),
        {
            let ghost c0 = c;
            let ghost s_head = self.stream();
            let ghost t_head = self.table();
            let t = match self.peek() {
                Err(e) => {
                    return Err(Error { kind: ErrorKind::Lex(e), span: e.span });
                },
                Ok(None) => {
                    break ;
                },
                Ok(Some(t)) => t,
            };
            let op: BinaryOp = match t.kind {
                TokenKind::Add => BinaryOp::Add,
                TokenKind::Sub => BinaryOp::Sub,
                TokenKind::Mul => BinaryOp::Mul,
                TokenKind::Div => BinaryOp::Div,
                TokenKind::Assign => BinaryOp::Assign,
                TokenKind::Semi => {
                    break ;
                },
                _ => {
                    return Err(Error { kind: ErrorKind::ExpectedOperator, span: t.span });
                },
            };
            if op.precedence() < precedence {
                break ;
            }
            self.chomp();
            proof {
                assert(s_head.drop_first() =~= s_head.skip(1));
                assert(s_head.skip(1) =~= s1.skip(c0 + 1));
            }
            let ghost s_rhs = self.stream();
            let rhs_prec = op.precedence() + 1;
            let right = match self.expr(rhs_prec) {
                Err(e) => {
                    return Err(e);
                },
                Ok(None) => {
                    return Err(Error { kind: ErrorKind::UnexpectedEof, span: Span::eof() });
                },
                Ok(Some(r)) => r,
            };
            proof {
                lemma_model_span(&left);
                lemma_model_span(&right);
            }
            let ghost left_old = left@;
            let ghost right_m = right@;
            let sp = left.span.join(right.span);
            left = Expr {
                kind: ExprKind::Binary(
                    BinaryExpr {
                        op: WithSpan::new(op, t.span),
                        left: Box::new(left),
                        right: Box::new(right),
                    },
                ),
                span: sp,
            };
            proof {
                let combined = ExprData::Binary {
                    op,
                    op_span: t.span,
                    left: Box::new(left_old),
                    right: Box::new(right_m),
                    span: left_old.span().spec_join(right_m.span()),
                };
                assert(left@ == combined);
                lemma_expr_consumed(s_rhs, t_head, rhs_prec as int);
                let rhs_res = spec_expr(s_rhs, t_head, rhs_prec as int);
                let n_r = rhs_res->Parsed_n;
                assert(1 <= n_r <= s_rhs.len());
                assert(s_rhs.skip(n_r as int) =~= s1.skip(c0 + 1 + n_r));
                c = c0 + 1 + n_r;
                assert(s_head[0] == (Scan::Token { kind: t.kind@, span: t.span }));
                assert(op_of(t.kind@) == Some(op));
                assert(op.spec_precedence() >= p);
                assert(1 + n_r <= s_head.len());
                assert(s_head.skip(1 + n_r as int) =~= s1.skip(c));
                match spec_climb(self.stream(), self.table(), left@, p) {
                    ClimbResult::Failed(e) => {
                        assert(spec_climb(s_head, t_head, left_old, p) == ClimbResult::Failed(e));
                    },
                    ClimbResult::Parsed { e, n, vars } => {
                        assert(spec_climb(s_head, t_head, left_old, p) == (ClimbResult::Parsed {
                            e,
                            n: (1 + n_r + n) as nat,
                            vars,
                        }));
                    },
                }
            }
        }
        proof {
            assert(s0.skip(1).skip(c) =~= s0.skip(c + 1));
        }
        Ok(Some(left))
    }

    /// Parses a whole program: a sequence of statements, each one expression
    /// terminated by a mandatory semicolon. On success the accumulated
    /// variable table moves into the returned [`Ast`].
    pub fn parse(&mut self) -> (r: Result<Ast, Error>)
        requires
            old(self).wf(),
        ensures
            final(self).wf(),
            match spec_stmts(old(self).stream(), old(self).table()) {
                StmtsResult::Failed(e) => r matches Err(x) && x == e,
                StmtsResult::Parsed { exprs, vars } => r matches Ok(ast) && ast@.exprs == exprs
                    && ast@.vars == vars,
            },
    {
        let ghost s0 = self.stream();
        let ghost v0 = self.table();
        let mut exprs: Vec<Expr> = Vec::new();
        proof {
            assert(exprs_model(exprs@) =~= Seq::<ExprData>::empty());
            match spec_stmts(s0, v0) {
                StmtsResult::Parsed { exprs: es, vars } => {
                    assert(exprs_model(exprs@) + es =~= es);
                },
                _ => {},
            }
        }
        loop
            invariant
                self.wf(),
                s0 == old(self).stream(),
                v0 == old(self).table(),
                match spec_stmts(self.stream(), self.table()) {
                    StmtsResult::Failed(e) => spec_stmts(s0, v0) == StmtsResult::Failed(e),
                    StmtsResult::Parsed { exprs: es, vars } => spec_stmts(s0, v0)
                        == (StmtsResult::Parsed { exprs: exprs_model(exprs@) + es, vars }),
                },
            ensures
                self.wf(),
                spec_stmts(s0, v0) == (StmtsResult::Parsed {
                    exprs: exprs_model(exprs@),
                    vars: self.table(),
                }),
            decreases self.stream().len(),
        {
            let ghost s_head = self.stream();
            let ghost v_head = self.table();
            let e = match self.expr(0) {
                Err(e) => {
                    return Err(e);
                },
                Ok(None) => {
                    proof {
                        assert(exprs_model(exprs@) + Seq::<ExprData>::empty() =~= exprs_model(
                            exprs@,
                        ));
                    }
                    break ;
                },
                Ok(Some(e)) => e,
            };
            proof {
                lemma_expr_consumed(s_head, v_head, 0);
            }
            let t = match self.next() {
                Err(e) => {
                    return Err(Error { kind: ErrorKind::Lex(e), span: e.span });
                },
                Ok(t) => t,
            };
            match t {
                Some(tok) => match tok.kind {
                    TokenKind::Semi => {
                        let ghost n_e = spec_expr(s_head, v_head, 0)->Parsed_n;
                        let ghost em = exprs_model(exprs@);
                        proof {
                            assert(s_head.skip(n_e as int).drop_first() =~= s_head.skip(
                                n_e as int + 1,
                            ));
                        }
                        exprs.push(e);
                        proof {
                            assert(exprs_model(exprs@) =~= em.push(e@));
                            match spec_stmts(self.stream(), self.table()) {
                                StmtsResult::Parsed { exprs: es, vars } => {
                                    assert(em.push(e@) + es =~= em + (seq![e@] + es));
                                },
                                _ => {},
                            }
                        }
                    },
                    _ => {
                        return Err(
                            Error { kind: ErrorKind::UnterminatedExpression, span: tok.span },
                        );
                    },
                },
                None => {
                    return Err(
                        Error { kind: ErrorKind::UnterminatedExpression, span: Span::eof() },
                    );
                },
            }
        }
        let ghost t_end = self.table();
        let mut vars: Vec<Var> = Vec::new();
        core::mem::swap(&mut vars, &mut self.vars);
        assert(vars_model(vars@) == t_end);
        Ok(Ast { exprs, vars })
    }
}

/// A successful expression parse consumes at least the primary token and
/// never more than the stream holds.
pub proof fn lemma_expr_consumed(ts: Seq<Scan>, vars: Seq<Seq<char>>, min_prec: int)
    ensures
        spec_expr(ts, vars, min_prec) matches ExprResult::Parsed { n, .. } ==> 1 <= n <= ts.len(),
    decreases ts.len(), 1int,
{
    match spec_primary(ts, vars) {
        PrimaryResult::Parsed { e, vars: vars1 } => {
            lemma_climb_consumed(ts.skip(1), vars1, e, min_prec);
        },
        _ => {},
    }
}

pub proof fn lemma_climb_consumed(
    ts: Seq<Scan>,
    vars: Seq<Seq<char>>,
    left: ExprData,
    min_prec: int,
)
    ensures
        spec_climb(ts, vars, left, min_prec) matches ClimbResult::Parsed { n, .. } ==> n
            <= ts.len(),
    decreases ts.len(), 0int,
{
    if ts.len() > 0 {
        match ts[0] {
            Scan::Token { kind, span } => {
                match op_of(kind) {
                    Some(op) => {
                        if !(kind is Semi) && op.spec_precedence() >= min_prec {
                            lemma_expr_consumed(ts.skip(1), vars, op.spec_precedence() + 1);
                            match spec_expr(ts.skip(1), vars, op.spec_precedence() + 1) {
                                ExprResult::Parsed { e: right, n, vars: vars2 } => {
                                    let combined = ExprData::Binary {
                                        op,
                                        op_span: span,
                                        left: Box::new(left),
                                        right: Box::new(right),
                                        span: left.span().spec_join(right.span()),
                                    };
                                    if 1 + n <= ts.len() {
                                        lemma_climb_consumed(
                                            ts.skip(1 + n as int),
                                            vars2,
                                            combined,
                                            min_prec,
                                        );
                                    }
                                },
                                _ => {},
                            }
                        }
                    },
                    None => {},
                }
            },
            _ => {},
        }
    }
}

} // verus!
