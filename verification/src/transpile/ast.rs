//! The syntax tree the transpiler builds: declarations with their decoded
//! instructions, and the expressions and statements recovered from them.
use crate::vars::VarDomain;
use vstd::prelude::*;

verus! {

/// Any node of the tree.
#[derive(Debug, Clone)]
pub enum TypeScriptNode {
    Program(Program),
    Statement(Statement),
    Expression(Expression),
    Declaration(Declaration),
}

/// A module: its imports, statements and leading comments.
#[derive(Debug, Clone)]
pub struct Program {
    pub imports: Vec<ImportStatement>,
    pub statements: Vec<Statement>,
    pub comments: Vec<String>,
}

/// An `import { .. } from ".."` line.
#[derive(Debug, Clone)]
pub struct ImportStatement {
    pub module: String,
    pub named_exports: Vec<String>,
    pub is_type_only: bool,
}

/// A statement.
#[derive(Debug)]
pub enum Statement {
    ExpressionStatement(ExpressionStatement),
    VariableDeclaration(VariableDeclaration),
    IfStatement(IfStatement),
    GotoStatement(GotoStatement),
    SwitchStatement(SwitchStatement),
    Label(Label),
    CallStatement(CallStatement),
    ReturnStatement(ReturnStatement),
    Comment(String),
}

/// An expression used as a statement.
#[derive(Debug, Clone)]
pub struct ExpressionStatement {
    pub expr: Expression,
    pub semicolon: bool,
}

/// A `let` with a type hint and an optional initial value.
#[derive(Debug, Clone)]
pub struct VariableDeclaration {
    pub name: String,
    pub type_hint: TypeAnnotation,
    pub initializer: Option<Expression>,
}

/// An `if` with an optional `else`.
#[derive(Debug)]
pub struct IfStatement {
    pub condition: Expression,
    pub then_branch: Box<Statement>,
    pub else_branch: Option<Box<Statement>>,
}

/// A jump to an instruction index.
#[derive(Debug, Clone)]
pub struct GotoStatement {
    pub target: usize,
}

/// A jump table on a value.
#[derive(Debug, Clone)]
pub struct SwitchStatement {
    pub discriminant: Expression,
    pub cases: Vec<SwitchCase>,
    pub default_target: Option<usize>,
}

/// One arm of a jump table: jump to instruction `target` on `value`.
#[derive(Debug, Clone, Copy)]
pub struct SwitchCase {
    pub value: i32,
    pub target: usize,
}

/// The label of an instruction index.
#[derive(Debug, Clone)]
pub struct Label {
    pub index: usize,
}

/// A call by name used as a statement.
#[derive(Debug, Clone)]
pub struct CallStatement {
    pub callee: String,
    pub arguments: Vec<Expression>,
}

/// A `return` with an optional value.
#[derive(Debug, Clone)]
pub struct ReturnStatement {
    pub value: Option<Expression>,
}

/// An expression.
#[derive(Debug)]
pub enum Expression {
    NumberLiteral(NumberLiteral),
    BigIntLiteral(BigIntLiteral),
    StringLiteral(StringLiteral),
    BooleanLiteral(BooleanLiteral),
    Identifier(Identifier),
    ArrayAccess(ArrayAccess),
    PropertyAccess(PropertyAccess),
    Call(CallExpr),
    CallbackLiteral(CallbackLiteral),
    BinaryOperation(BinaryOperation),
    UnaryOperation(UnaryOperation),
    PushOperation(PushOperation),
    PopOperation(PopOperation),
    GotoExpr(GotoExpr),
}

/// A 32-bit integer literal.
#[derive(Debug, Clone)]
pub struct NumberLiteral {
    pub value: i32,
}

/// A 64-bit integer literal.
#[derive(Debug, Clone)]
pub struct BigIntLiteral {
    pub value: i64,
}

/// A string literal.
#[derive(Debug, Clone)]
pub struct StringLiteral {
    pub value: String,
}

/// A boolean literal.
#[derive(Debug, Clone)]
pub struct BooleanLiteral {
    pub value: bool,
}

/// A name.
#[derive(Debug, Clone)]
pub struct Identifier {
    pub name: String,
}

/// `array[index]`.
#[derive(Debug)]
pub struct ArrayAccess {
    pub array: Box<Expression>,
    pub index: Box<Expression>,
}

/// `object.property`.
#[derive(Debug)]
pub struct PropertyAccess {
    pub object: Box<Expression>,
    pub property: String,
}

/// `callee(arguments)`.
#[derive(Debug)]
pub struct CallExpr {
    pub callee: Box<Expression>,
    pub arguments: Vec<Expression>,
}

/// A script hook: the script to run, its arguments and the values whose
/// change triggers it.
#[derive(Debug)]
pub struct CallbackLiteral {
    pub script: String,
    pub script_id: Option<i32>,
    pub raw_descriptor: String,
    pub arguments: Vec<Expression>,
    pub watchers: Vec<String>,
}

/// `left op right`.
#[derive(Debug)]
pub struct BinaryOperation {
    pub op: BinaryOp,
    pub left: Box<Expression>,
    pub right: Box<Expression>,
}

/// A binary operator.
#[derive(Debug, Clone, Copy, PartialEq, Eq, Structural)]
pub enum BinaryOp {
    Add,
    Sub,
    Mul,
    Div,
    Mod,
    Eq,
    Ne,
    Lt,
    Le,
    Gt,
    Ge,
    And,
    Or,
}

/// A comparison: `==`, `!=`, `<`, `<=`, `>`, `>=`.
pub open spec fn is_comparison(op: BinaryOp) -> bool {
    op is Eq || op is Ne || op is Lt || op is Le || op is Gt || op is Ge
}

/// A multiplicative operator: `*`, `/`, `%`.
pub open spec fn is_multiplicative(op: BinaryOp) -> bool {
    op is Mul || op is Div || op is Mod
}

/// An additive operator: `+`, `-`.
pub open spec fn is_additive(op: BinaryOp) -> bool {
    op is Add || op is Sub
}

/// How tightly a binary operator binds in RuneScript source.
pub open spec fn binding_power(op: BinaryOp) -> int {
    match op {
        BinaryOp::Eq | BinaryOp::Ne | BinaryOp::Lt | BinaryOp::Le | BinaryOp::Gt | BinaryOp::Ge => 40,
        BinaryOp::Or => 50,
        BinaryOp::And => 60,
        BinaryOp::Add | BinaryOp::Sub => 70,
        BinaryOp::Mul | BinaryOp::Div | BinaryOp::Mod => 80,
    }
}

/// The binding order of RuneScript's binary operators, loosest first: the
/// comparisons, `|`, `&`, the additive operators, the multiplicative ones.
/// An operator of a later group binds tighter than one of an earlier
/// group, and the operators of one group bind alike.
pub proof fn lemma_binding_order(a: BinaryOp, b: BinaryOp)
    ensures
        is_multiplicative(a) && !is_multiplicative(b) ==> binding_power(a) > binding_power(b),
        is_additive(a) && !is_additive(b) && !is_multiplicative(b) ==> binding_power(a) > binding_power(b),
        a is And && (b is Or || is_comparison(b)) ==> binding_power(a) > binding_power(b),
        a is Or && is_comparison(b) ==> binding_power(a) > binding_power(b),
        (is_multiplicative(a) && is_multiplicative(b)) || (is_additive(a) && is_additive(b)) || (is_comparison(a)
            && is_comparison(b)) ==> binding_power(a) == binding_power(b),
{
}

/// The spelling of a binary operator.
pub open spec fn binary_op_text(op: BinaryOp) -> Seq<char> {
    match op {
        BinaryOp::Add => "+"@,
        BinaryOp::Sub => "-"@,
        BinaryOp::Mul => "*"@,
        BinaryOp::Div => "/"@,
        BinaryOp::Mod => "%"@,
        BinaryOp::Eq => "=="@,
        BinaryOp::Ne => "!="@,
        BinaryOp::Lt => "<"@,
        BinaryOp::Le => "<="@,
        BinaryOp::Gt => ">"@,
        BinaryOp::Ge => ">="@,
        BinaryOp::And => "&&"@,
        BinaryOp::Or => "||"@,
    }
}

impl BinaryOp {
    /// The operator as written in source.
    pub fn as_str(&self) -> (r: &'static str)
        ensures
            r@ == binary_op_text(*self),
    {
        match self {
            BinaryOp::Add => "+",
            BinaryOp::Sub => "-",
            BinaryOp::Mul => "*",
            BinaryOp::Div => "/",
            BinaryOp::Mod => "%",
            BinaryOp::Eq => "==",
            BinaryOp::Ne => "!=",
            BinaryOp::Lt => "<",
            BinaryOp::Le => "<=",
            BinaryOp::Gt => ">",
            BinaryOp::Ge => ">=",
            BinaryOp::And => "&&",
            BinaryOp::Or => "||",
        }
    }
}

/// `op operand`.
#[derive(Debug)]
pub struct UnaryOperation {
    pub op: UnaryOp,
    pub operand: Box<Expression>,
}

/// A unary operator.
#[derive(Debug, Clone, Copy, PartialEq, Eq, Structural)]
pub enum UnaryOp {
    Neg,
    Not,
}

impl UnaryOp {
    /// The operator as written in source.
    pub fn as_str(&self) -> (r: &'static str)
        ensures
            r@ == (match self {
                UnaryOp::Neg => "-"@,
                UnaryOp::Not => "!"@,
            }),
    {
        match self {
            UnaryOp::Neg => "-",
            UnaryOp::Not => "!",
        }
    }
}

/// Pushing a value on the VM stack.
#[derive(Debug)]
pub struct PushOperation {
    pub value: Box<Expression>,
}

/// Popping the VM stack, optionally into a target.
#[derive(Debug)]
pub struct PopOperation {
    pub target: Option<Box<Expression>>,
}

/// A jump used as an expression.
#[derive(Debug, Clone)]
pub struct GotoExpr {
    pub target: usize,
}

/// The id of a script: its packed archive id.
#[derive(Debug, Clone, Copy, PartialEq, Eq, Structural, Hash)]
pub struct ScriptId(pub i32);

/// The id of a game variable within its domain.
#[derive(Debug, Clone, Copy, PartialEq, Eq, Structural, Hash)]
pub struct VarId(pub u16);

/// The id of a variable bit field.
#[derive(Debug, Clone, Copy, PartialEq, Eq, Structural, Hash)]
pub struct VarBitId(pub u16);

/// A script as the transpiler sees it: its id and name, its locals and
/// arguments, and its instructions.
#[derive(Debug, Clone)]
pub struct Declaration {
    pub script_id: ScriptId,
    pub name: Option<String>,
    pub locals: Vec<LocalVariable>,
    pub arguments: Vec<ArgumentVariable>,
    pub instructions: Vec<InstructionNode>,
}

/// A local variable of a script.
#[derive(Debug, Clone)]
pub struct LocalVariable {
    pub index: usize,
    pub name: String,
    pub type_annotation: TypeAnnotation,
}

/// An argument of a script.
#[derive(Debug, Clone)]
pub struct ArgumentVariable {
    pub index: usize,
    pub name: String,
    pub type_annotation: TypeAnnotation,
}

/// One decoded instruction at its index.
#[derive(Debug, Clone)]
pub struct InstructionNode {
    pub index: usize,
    pub opcode: u16,
    pub command: String,
    pub operand: OperandNode,
}

/// The operand of an instruction node; jump targets are instruction
/// indices.
#[derive(Debug, Clone)]
pub enum OperandNode {
    Int(i32),
    Long(i64),
    String(String),
    Local(usize),
    VarRef(VarRefNode),
    VarBitRef(VarBitRefNode),
    Branch(usize),
    Switch(Vec<SwitchCase>),
    Script(i32),
    Array(i32),
    Count(usize),
    Byte(u8),
}

/// A variable reference, with its name when one is known.
#[derive(Debug, Clone)]
pub struct VarRefNode {
    pub domain: VarDomain,
    pub id: VarId,
    pub name: Option<String>,
    pub is_transmog: bool,
}

/// A variable bit reference, with its name when one is known.
#[derive(Debug, Clone)]
pub struct VarBitRefNode {
    pub id: VarBitId,
    pub name: Option<String>,
    pub is_transmog: bool,
}

/// A type in the generated source.
#[derive(Debug, Clone, Copy, PartialEq, Eq, Structural)]
pub enum TypeAnnotation {
    Number,
    BigInt,
    String,
    Boolean,
    Unknown,
}

/// The spelling of a type.
pub open spec fn type_text(t: TypeAnnotation) -> Seq<char> {
    match t {
        TypeAnnotation::Number => "number"@,
        TypeAnnotation::BigInt => "bigint"@,
        TypeAnnotation::String => "string"@,
        TypeAnnotation::Boolean => "boolean"@,
        TypeAnnotation::Unknown => "any"@,
    }
}

impl TypeAnnotation {
    /// The type as written in source.
    pub fn as_str(&self) -> (r: &'static str)
        ensures
            r@ == type_text(*self),
    {
        match self {
            TypeAnnotation::Number => "number",
            TypeAnnotation::BigInt => "bigint",
            TypeAnnotation::String => "string",
            TypeAnnotation::Boolean => "boolean",
            TypeAnnotation::Unknown => "any",
        }
    }
}

// ---------------------------------------------------------------------------
// Copying trees
// ---------------------------------------------------------------------------

/// `b` is a copy of `a`: the same tree, with the same values in every
/// node (lists compared element by element).
pub open spec fn copy_of(a: Expression, b: Expression) -> bool
    decreases a, 1nat, 0nat,
{
    match a {
        Expression::ArrayAccess(x) => b matches Expression::ArrayAccess(y) && copy_of(*x.array, *y.array) && copy_of(
            *x.index,
            *y.index,
        ),
        Expression::PropertyAccess(x) => b matches Expression::PropertyAccess(y) && copy_of(*x.object, *y.object)
            && y.property == x.property,
        Expression::Call(x) => b matches Expression::Call(y) && copy_of(*x.callee, *y.callee)
            && y.arguments@.len() == x.arguments@.len() && args_copied(a, b, x.arguments@.len()),
        Expression::CallbackLiteral(x) => b matches Expression::CallbackLiteral(y) && y.script == x.script
            && y.script_id == x.script_id && y.raw_descriptor == x.raw_descriptor && y.watchers@ == x.watchers@
            && y.arguments@.len() == x.arguments@.len() && args_copied(a, b, x.arguments@.len()),
        Expression::BinaryOperation(x) => b matches Expression::BinaryOperation(y) && y.op == x.op && copy_of(
            *x.left,
            *y.left,
        ) && copy_of(*x.right, *y.right),
        Expression::UnaryOperation(x) => b matches Expression::UnaryOperation(y) && y.op == x.op && copy_of(
            *x.operand,
            *y.operand,
        ),
        Expression::PushOperation(x) => b matches Expression::PushOperation(y) && copy_of(*x.value, *y.value),
        Expression::PopOperation(x) => b matches Expression::PopOperation(y) && match x.target {
            Some(t) => y.target matches Some(u) && copy_of(*t, *u),
            None => y.target is None,
        },
        _ => b == a,
    }
}

/// The first `k` arguments of the call or callback `b` are copies of those
/// of `a`.
pub open spec fn args_copied(a: Expression, b: Expression, k: nat) -> bool
    decreases a, 0nat, k,
{
    let (xs, ys) = match (a, b) {
        (Expression::Call(x), Expression::Call(y)) => (x.arguments@, y.arguments@),
        (Expression::CallbackLiteral(x), Expression::CallbackLiteral(y)) => (x.arguments@, y.arguments@),
        _ => (Seq::empty(), Seq::empty()),
    };
    if k == 0 || k > xs.len() || k > ys.len() {
        k == 0
    } else {
        proof {
            match a {
                Expression::Call(x) => {
                    assert(decreases_to!(a => a->Call_0));
                    assert(decreases_to!(a->Call_0 => a->Call_0.arguments));
                    assert(decreases_to!(x.arguments => x.arguments@));
                    assert(decreases_to!(x.arguments@ => x.arguments@[k - 1]));
                },
                Expression::CallbackLiteral(x) => {
                    assert(decreases_to!(a => a->CallbackLiteral_0));
                    assert(decreases_to!(a->CallbackLiteral_0 => a->CallbackLiteral_0.arguments));
                    assert(decreases_to!(x.arguments => x.arguments@));
                    assert(decreases_to!(x.arguments@ => x.arguments@[k - 1]));
                },
                _ => {},
            }
        }
        args_copied(a, b, (k - 1) as nat) && copy_of(xs[k - 1], ys[k - 1])
    }
}

proof fn lemma_args_copied(a: Expression, b: Expression, k: nat)
    requires
        (a is Call && b is Call && k <= a->Call_0.arguments@.len() && a->Call_0.arguments@.len()
            == b->Call_0.arguments@.len() && forall|j: int|
            0 <= j < k ==> copy_of(a->Call_0.arguments@[j], #[trigger] b->Call_0.arguments@[j])) || (
        a is CallbackLiteral && b is CallbackLiteral && k <= a->CallbackLiteral_0.arguments@.len()
            && a->CallbackLiteral_0.arguments@.len() == b->CallbackLiteral_0.arguments@.len() && forall|j: int|
            0 <= j < k ==> copy_of(
                a->CallbackLiteral_0.arguments@[j],
                #[trigger] b->CallbackLiteral_0.arguments@[j],
            )),
    ensures
        args_copied(a, b, k),
    decreases k,
{
    if k > 0 {
        lemma_args_copied(a, b, (k - 1) as nat);
    }
}

/// A copy of a list of names.
fn clone_strings(v: &Vec<String>) -> (r: Vec<String>)
    ensures
        r@ == v@,
{
    let mut out: Vec<String> = Vec::new();
    let mut i: usize = 0;
    while i < v.len()
        invariant
            i <= v@.len(),
            out@ == v@.take(i as int),
        decreases v.len() - i,
    {
        out.push(v[i].clone());
        proof {
            assert(out@ =~= v@.take(i + 1));
        }
        i = i + 1;
    }
    proof {
        assert(out@ =~= v@);
    }
    out
}

/// A copy of an expression tree.
pub fn copy_expr(e: &Expression) -> (r: Expression)
    ensures
        copy_of(*e, r),
    decreases e,
{
    match e {
        Expression::NumberLiteral(n) => Expression::NumberLiteral(NumberLiteral { value: n.value }),
        Expression::BigIntLiteral(n) => Expression::BigIntLiteral(BigIntLiteral { value: n.value }),
        Expression::StringLiteral(s) => Expression::StringLiteral(
            StringLiteral { value: s.value.clone() },
        ),
        Expression::BooleanLiteral(b) => Expression::BooleanLiteral(
            BooleanLiteral { value: b.value },
        ),
        Expression::Identifier(i) => Expression::Identifier(Identifier { name: i.name.clone() }),
        Expression::ArrayAccess(a) => Expression::ArrayAccess(
            ArrayAccess {
                array: Box::new(copy_expr(&a.array)),
                index: Box::new(copy_expr(&a.index)),
            },
        ),
        Expression::PropertyAccess(p) => Expression::PropertyAccess(
            PropertyAccess { object: Box::new(copy_expr(&p.object)), property: p.property.clone() },
        ),
        Expression::Call(c) => {
            let callee = copy_expr(&c.callee);
            let mut arguments: Vec<Expression> = Vec::new();
            let mut i: usize = 0;
            while i < c.arguments.len()
                invariant
                    *e == Expression::Call(*c),
                    i <= c.arguments@.len(),
                    arguments@.len() == i,
                    forall|j: int| 0 <= j < i ==> copy_of(c.arguments@[j], #[trigger] arguments@[j]),
                decreases c.arguments.len() - i,
            {
                proof {
                    assert(decreases_to!(*e => e->Call_0));
                    assert(decreases_to!(e->Call_0 => e->Call_0.arguments));
                    assert(decreases_to!(*e => c.arguments));
                    assert(decreases_to!(c.arguments => c.arguments@));
                    assert(decreases_to!(c.arguments@ => c.arguments@[i as int]));
                    assert(decreases_to!(e => c.arguments@[i as int]));
                }
                arguments.push(copy_expr(&c.arguments[i]));
                i = i + 1;
            }
            let r = Expression::Call(CallExpr { callee: Box::new(callee), arguments });
            proof {
                lemma_args_copied(*e, r, c.arguments@.len());
            }
            return r;
        },
        Expression::CallbackLiteral(cb) => {
            let mut arguments: Vec<Expression> = Vec::new();
            let mut i: usize = 0;
            while i < cb.arguments.len()
                invariant
                    *e == Expression::CallbackLiteral(*cb),
                    i <= cb.arguments@.len(),
                    arguments@.len() == i,
                    forall|j: int| 0 <= j < i ==> copy_of(cb.arguments@[j], #[trigger] arguments@[j]),
                decreases cb.arguments.len() - i,
            {
                proof {
                    assert(decreases_to!(*e => e->CallbackLiteral_0));
                    assert(decreases_to!(e->CallbackLiteral_0 => e->CallbackLiteral_0.arguments));
                    assert(decreases_to!(*e => cb.arguments));
                    assert(decreases_to!(cb.arguments => cb.arguments@));
                    assert(decreases_to!(cb.arguments@ => cb.arguments@[i as int]));
                    assert(decreases_to!(e => cb.arguments@[i as int]));
                }
                arguments.push(copy_expr(&cb.arguments[i]));
                i = i + 1;
            }
            let watchers = clone_strings(&cb.watchers);
            let r = Expression::CallbackLiteral(
                CallbackLiteral {
                    script: cb.script.clone(),
                    script_id: cb.script_id,
                    raw_descriptor: cb.raw_descriptor.clone(),
                    arguments,
                    watchers,
                },
            );
            proof {
                lemma_args_copied(*e, r, cb.arguments@.len());
            }
            r
        },
        Expression::BinaryOperation(b) => Expression::BinaryOperation(
            BinaryOperation {
                op: b.op,
                left: Box::new(copy_expr(&b.left)),
                right: Box::new(copy_expr(&b.right)),
            },
        ),
        Expression::UnaryOperation(u) => Expression::UnaryOperation(
            UnaryOperation { op: u.op, operand: Box::new(copy_expr(&u.operand)) },
        ),
        Expression::PushOperation(p) => Expression::PushOperation(
            PushOperation { value: Box::new(copy_expr(&p.value)) },
        ),
        Expression::PopOperation(p) => match &p.target {
            Some(t) => Expression::PopOperation(
                PopOperation { target: Some(Box::new(copy_expr(t))) },
            ),
            None => Expression::PopOperation(PopOperation { target: None }),
        },
        Expression::GotoExpr(g) => Expression::GotoExpr(GotoExpr { target: g.target }),
    }
}

/// A copy of a list of expressions.
pub fn copy_exprs(v: &Vec<Expression>) -> (r: Vec<Expression>)
    ensures
        r.len() == v.len(),
        forall|j: int| 0 <= j < v@.len() ==> copy_of(v@[j], #[trigger] r@[j]),
{
    let mut out: Vec<Expression> = Vec::new();
    let mut i: usize = 0;
    while i < v.len()
        invariant
            i <= v.len(),
            out.len() == i,
            forall|j: int| 0 <= j < i ==> copy_of(v@[j], #[trigger] out@[j]),
        decreases v.len() - i,
    {
        out.push(copy_expr(&v[i]));
        i = i + 1;
    }
    out
}

impl Clone for Expression {
    fn clone(&self) -> (r: Self)
        ensures
            copy_of(*self, r),
    {
        copy_expr(self)
    }
}

impl Clone for CallExpr {
    fn clone(&self) -> (r: Self) {
        CallExpr { callee: Box::new(copy_expr(&self.callee)), arguments: copy_exprs(&self.arguments) }
    }
}

impl Clone for ArrayAccess {
    fn clone(&self) -> (r: Self) {
        ArrayAccess { array: Box::new(copy_expr(&self.array)), index: Box::new(copy_expr(&self.index)) }
    }
}

impl Clone for PropertyAccess {
    fn clone(&self) -> (r: Self) {
        PropertyAccess { object: Box::new(copy_expr(&self.object)), property: self.property.clone() }
    }
}

impl Clone for CallbackLiteral {
    fn clone(&self) -> (r: Self) {
        CallbackLiteral {
            script: self.script.clone(),
            script_id: self.script_id,
            raw_descriptor: self.raw_descriptor.clone(),
            arguments: copy_exprs(&self.arguments),
            watchers: self.watchers.clone(),
        }
    }
}

impl Clone for BinaryOperation {
    fn clone(&self) -> (r: Self) {
        BinaryOperation {
            op: self.op,
            left: Box::new(copy_expr(&self.left)),
            right: Box::new(copy_expr(&self.right)),
        }
    }
}

impl Clone for UnaryOperation {
    fn clone(&self) -> (r: Self) {
        UnaryOperation { op: self.op, operand: Box::new(copy_expr(&self.operand)) }
    }
}

impl Clone for PushOperation {
    fn clone(&self) -> (r: Self) {
        PushOperation { value: Box::new(copy_expr(&self.value)) }
    }
}

impl Clone for PopOperation {
    fn clone(&self) -> (r: Self) {
        match &self.target {
            Some(t) => PopOperation { target: Some(Box::new(copy_expr(t))) },
            None => PopOperation { target: None },
        }
    }
}

/// `b` is a copy of the statement `a`: the same tree, with copies of its
/// expressions and the same values elsewhere.
pub open spec fn stmt_copy_of(a: Statement, b: Statement) -> bool
    decreases a,
{
    match a {
        Statement::ExpressionStatement(x) => b matches Statement::ExpressionStatement(y) && copy_of(x.expr, y.expr)
            && y.semicolon == x.semicolon,
        Statement::VariableDeclaration(x) => b matches Statement::VariableDeclaration(y) && y.name == x.name
            && y.type_hint == x.type_hint && match x.initializer {
            Some(e) => y.initializer matches Some(f) && copy_of(e, f),
            None => y.initializer is None,
        },
        Statement::IfStatement(x) => b matches Statement::IfStatement(y) && copy_of(x.condition, y.condition)
            && stmt_copy_of(*x.then_branch, *y.then_branch) && match x.else_branch {
            Some(e) => y.else_branch matches Some(f) && stmt_copy_of(*e, *f),
            None => y.else_branch is None,
        },
        Statement::SwitchStatement(x) => b matches Statement::SwitchStatement(y) && copy_of(
            x.discriminant,
            y.discriminant,
        ) && y.cases@ == x.cases@ && y.default_target == x.default_target,
        Statement::CallStatement(x) => b matches Statement::CallStatement(y) && y.callee == x.callee
            && y.arguments@.len() == x.arguments@.len() && forall|j: int|
            0 <= j < x.arguments@.len() ==> copy_of(x.arguments@[j], #[trigger] y.arguments@[j]),
        Statement::ReturnStatement(x) => b matches Statement::ReturnStatement(y) && match x.value {
            Some(e) => y.value matches Some(f) && copy_of(e, f),
            None => y.value is None,
        },
        _ => b == a,
    }
}

/// A copy of the optional expression `e`.
pub(crate) fn copy_opt_expr(e: &Option<Expression>) -> (r: Option<Expression>)
    ensures
        match *e {
            Some(x) => r matches Some(y) && copy_of(x, y),
            None => r is None,
        },
{
    match e {
        Some(x) => Some(copy_expr(x)),
        None => None,
    }
}

/// A copy of a statement tree.
pub fn copy_statement(s: &Statement) -> (r: Statement)
    ensures
        stmt_copy_of(*s, r),
    decreases s,
{
    match s {
        Statement::ExpressionStatement(e) => Statement::ExpressionStatement(
            ExpressionStatement { expr: copy_expr(&e.expr), semicolon: e.semicolon },
        ),
        Statement::VariableDeclaration(v) => Statement::VariableDeclaration(
            VariableDeclaration {
                name: v.name.clone(),
                type_hint: v.type_hint,
                initializer: copy_opt_expr(&v.initializer),
            },
        ),
        Statement::IfStatement(i) => {
            let else_branch = match &i.else_branch {
                Some(b) => Some(Box::new(copy_statement(b))),
                None => None,
            };
            Statement::IfStatement(
                IfStatement {
                    condition: copy_expr(&i.condition),
                    then_branch: Box::new(copy_statement(&i.then_branch)),
                    else_branch,
                },
            )
        },
        Statement::GotoStatement(g) => Statement::GotoStatement(GotoStatement { target: g.target }),
        Statement::SwitchStatement(w) => {
            let mut cases: Vec<SwitchCase> = Vec::new();
            let mut k: usize = 0;
            while k < w.cases.len()
                invariant
                    k <= w.cases@.len(),
                    cases@ == w.cases@.take(k as int),
                decreases w.cases@.len() - k,
            {
                cases.push(w.cases[k]);
                proof {
                    assert(cases@ =~= w.cases@.take(k + 1));
                }
                k = k + 1;
            }
            proof {
                assert(cases@ =~= w.cases@);
            }
            Statement::SwitchStatement(
                SwitchStatement {
                    discriminant: copy_expr(&w.discriminant),
                    cases,
                    default_target: w.default_target,
                },
            )
        },
        Statement::Label(l) => Statement::Label(Label { index: l.index }),
        Statement::CallStatement(c) => Statement::CallStatement(
            CallStatement { callee: c.callee.clone(), arguments: copy_exprs(&c.arguments) },
        ),
        Statement::ReturnStatement(r) => Statement::ReturnStatement(
            ReturnStatement { value: copy_opt_expr(&r.value) },
        ),
        Statement::Comment(c) => Statement::Comment(c.clone()),
    }
}

impl Clone for Statement {
    fn clone(&self) -> (r: Self) {
        copy_statement(self)
    }
}

impl Clone for IfStatement {
    fn clone(&self) -> (r: Self) {
        let else_branch = match &self.else_branch {
            Some(b) => Some(Box::new(copy_statement(b))),
            None => None,
        };
        IfStatement {
            condition: copy_expr(&self.condition),
            then_branch: Box::new(copy_statement(&self.then_branch)),
            else_branch,
        }
    }
}

} // verus!
