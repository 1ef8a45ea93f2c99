//! A light semantic pass: the names a program or a declaration reads that
//! nothing in scope defines, and the variable references that carry no
//! name, reported as diagnostics.
use crate::text::{chars_of, dec_nat, push_str, push_u64, str_eq, string_from};
use crate::transpile::ast::{
    ArgumentVariable, Declaration, Expression, InstructionNode, LocalVariable, OperandNode, Program, Statement,
    TypeAnnotation,
};
use crate::transpile::diagnostics::{Diagnostic, Diagnostics, Severity};
use crate::vars::{domain_label, VarDomain};
use vstd::prelude::*;

verus! {

broadcast use vstd::string::group_string_axioms;

/// Diagnostics by severity and message.
pub open spec fn messages(d: Seq<Diagnostic>) -> Seq<(Severity, Seq<char>)> {
    d.map_values(|x: Diagnostic| (x.severity, x.message@))
}

/// The identifiers an expression reads, in the order the pass visits them.
pub open spec fn expr_idents(e: Expression) -> Seq<Seq<char>>
    decreases e,
{
    match e {
        Expression::Identifier(id) => seq![id.name@],
        Expression::ArrayAccess(a) => expr_idents(*a.array) + expr_idents(*a.index),
        Expression::PropertyAccess(p) => expr_idents(*p.object),
        Expression::Call(c) => expr_idents(*c.callee) + list_idents(
            {
                proof {
                    assert(decreases_to!(e => c));
                    assert(decreases_to!(c => c.arguments));
                    assert(decreases_to!(c.arguments => c.arguments@));
                }
                c.arguments@
            },
        ),
        Expression::BinaryOperation(b) => expr_idents(*b.left) + expr_idents(*b.right),
        Expression::UnaryOperation(u) => expr_idents(*u.operand),
        Expression::PushOperation(p) => expr_idents(*p.value),
        _ => seq![],
    }
}

/// The identifiers a list of expressions reads, in order.
pub open spec fn list_idents(es: Seq<Expression>) -> Seq<Seq<char>>
    decreases es,
{
    if es.len() == 0 {
        seq![]
    } else {
        list_idents(es.subrange(0, es.len() - 1)) + expr_idents(es[es.len() - 1])
    }
}

/// The identifiers a statement reads, in order.
pub open spec fn stmt_idents(s: Statement) -> Seq<Seq<char>>
    decreases s,
{
    match s {
        Statement::ExpressionStatement(es) => expr_idents(es.expr),
        Statement::VariableDeclaration(vd) => match vd.initializer {
            Some(e) => expr_idents(e),
            None => seq![],
        },
        Statement::IfStatement(i) => expr_idents(i.condition) + stmt_idents(*i.then_branch) + match i.else_branch {
            Some(b) => stmt_idents(*b),
            None => seq![],
        },
        Statement::SwitchStatement(sw) => expr_idents(sw.discriminant),
        Statement::CallStatement(cs) => list_idents(cs.arguments@),
        Statement::ReturnStatement(r) => match r.value {
            Some(e) => expr_idents(e),
            None => seq![],
        },
        _ => seq![],
    }
}

/// The identifiers a list of statements reads, in order.
pub open spec fn stmts_idents(ss: Seq<Statement>) -> Seq<Seq<char>>
    decreases ss.len(),
{
    if ss.len() == 0 {
        seq![]
    } else {
        stmts_idents(ss.drop_last()) + stmt_idents(ss.last())
    }
}

/// A warning for each of `names`: none is defined.
pub open spec fn undefined_warnings(names: Seq<Seq<char>>) -> Seq<(Severity, Seq<char>)> {
    names.map_values(|n: Seq<char>| (Severity::Warning, "undefined identifier: "@ + n))
}

/// The names a declaration defines: its arguments', then its locals'.
pub open spec fn declared_names(args: Seq<ArgumentVariable>, locals: Seq<LocalVariable>) -> Seq<Seq<char>> {
    args.map_values(|a: ArgumentVariable| a.name@) + locals.map_values(|l: LocalVariable| l.name@)
}

/// What the pass reports of one instruction, given the defined names: an
/// undefined `local_<n>` operand, or a variable or varbit reference
/// without a name.
pub open spec fn instruction_messages(defined: Seq<Seq<char>>, ins: InstructionNode) -> Seq<(Severity, Seq<char>)> {
    match ins.operand {
        OperandNode::Local(idx) => {
            let name = "local_"@ + dec_nat(idx as nat);
            if defined.contains(name) {
                seq![]
            } else {
                seq![(Severity::Warning, "undefined local: "@ + name)]
            }
        },
        OperandNode::VarRef(vr) => if vr.name is None {
            seq![(Severity::Note, "unresolved var "@ + domain_label(vr.domain) + ":"@ + dec_nat(vr.id.0 as nat))]
        } else {
            seq![]
        },
        OperandNode::VarBitRef(vbr) => if vbr.name is None {
            seq![(Severity::Note, "unresolved varbit "@ + dec_nat(vbr.id.0 as nat))]
        } else {
            seq![]
        },
        _ => seq![],
    }
}

/// What the pass reports of an instruction stream, in order.
pub open spec fn instructions_messages(defined: Seq<Seq<char>>, code: Seq<InstructionNode>) -> Seq<
    (Severity, Seq<char>),
>
    decreases code.len(),
{
    if code.len() == 0 {
        seq![]
    } else {
        instructions_messages(defined, code.drop_last()) + instruction_messages(defined, code.last())
    }
}

/// The semantic pass and the diagnostics it has raised.
pub struct Sema {
    pub diagnostics: Diagnostics,
}

impl Sema {
    /// A pass with no diagnostics yet.
    pub fn new() -> (r: Sema)
        ensures
            r.diagnostics.diagnostics@ == Seq::<Diagnostic>::empty(),
    {
        Sema { diagnostics: Diagnostics::new() }
    }

    /// Reports each identifier the program's statements read; no statement
    /// of a program defines a name, so each gets an `undefined identifier`
    /// warning. The program is not changed.
    pub fn analyze_program(&mut self, program: &mut Program)
        ensures
            *final(program) == *old(program),
            messages(final(self).diagnostics.diagnostics@) == messages(old(self).diagnostics.diagnostics@)
                + undefined_warnings(stmts_idents(old(program).statements@)),
    {
        let mut i: usize = 0;
        while i < program.statements.len()
            invariant
                i <= program.statements@.len(),
                *program == *old(program),
                messages(self.diagnostics.diagnostics@) == messages(old(self).diagnostics.diagnostics@)
                    + undefined_warnings(stmts_idents(program.statements@.take(i as int))),
            decreases program.statements@.len() - i,
        {
            proof {
                assert(program.statements@.take(i + 1).drop_last() =~= program.statements@.take(i as int));
            }
            self.analyze_statement(&program.statements[i]);
            i = i + 1;
            proof {
                let ss = program.statements@.take(i as int);
                assert(undefined_warnings(stmts_idents(ss)) =~= undefined_warnings(
                    stmts_idents(ss.drop_last()),
                ) + undefined_warnings(stmt_idents(ss.last())));
            }
        }
        proof {
            assert(program.statements@.take(i as int) =~= program.statements@);
        }
    }

    fn warn_undefined(&mut self, name: &String)
        ensures
            messages(final(self).diagnostics.diagnostics@) == messages(old(self).diagnostics.diagnostics@)
                + undefined_warnings(seq![name@]),
    {
        let mut msg = string_from("undefined identifier: ");
        push_str(&mut msg, name.as_str());
        self.diagnostics.warning(msg);
        proof {
            assert(messages(self.diagnostics.diagnostics@) =~= messages(old(self).diagnostics.diagnostics@)
                + undefined_warnings(seq![name@]));
        }
    }

    fn analyze_statement(&mut self, stmt: &Statement)
        ensures
            messages(final(self).diagnostics.diagnostics@) == messages(old(self).diagnostics.diagnostics@)
                + undefined_warnings(stmt_idents(*stmt)),
        decreases stmt,
    {
        match stmt {
            Statement::ExpressionStatement(es) => self.analyze_expression(&es.expr),
            Statement::VariableDeclaration(vd) => match &vd.initializer {
                Some(init) => self.analyze_expression(init),
                None => {
                    proof {
                        assert(undefined_warnings(seq![]) =~= Seq::<(Severity, Seq<char>)>::empty());
                        assert(messages(self.diagnostics.diagnostics@) =~= messages(
                            self.diagnostics.diagnostics@,
                        ) + Seq::<(Severity, Seq<char>)>::empty());
                    }
                },
            },
            Statement::IfStatement(if_) => {
                let ghost m0 = messages(self.diagnostics.diagnostics@);
                self.analyze_expression(&if_.condition);
                self.analyze_statement(&if_.then_branch);
                let ghost m2 = messages(self.diagnostics.diagnostics@);
                match &if_.else_branch {
                    Some(e) => self.analyze_statement(e),
                    None => {},
                }
                proof {
                    let a = expr_idents(if_.condition);
                    let b = stmt_idents(*if_.then_branch);
                    let c = if if_.else_branch is Some {
                        stmt_idents(*if_.else_branch->0)
                    } else {
                        Seq::<Seq<char>>::empty()
                    };
                    assert(undefined_warnings(a + b + c) =~= undefined_warnings(a) + undefined_warnings(b)
                        + undefined_warnings(c));
                    assert(messages(self.diagnostics.diagnostics@) =~= m0 + undefined_warnings(a + b + c));
                }
            },
            Statement::SwitchStatement(sw) => self.analyze_expression(&sw.discriminant),
            Statement::CallStatement(cs) => self.analyze_list(&cs.arguments),
            Statement::ReturnStatement(rs) => match &rs.value {
                Some(val) => self.analyze_expression(val),
                None => {
                    proof {
                        assert(messages(self.diagnostics.diagnostics@) =~= messages(
                            self.diagnostics.diagnostics@,
                        ) + undefined_warnings(seq![]));
                    }
                },
            },
            _ => {
                proof {
                    assert(messages(self.diagnostics.diagnostics@) =~= messages(self.diagnostics.diagnostics@)
                        + undefined_warnings(seq![]));
                }
            },
        }
    }

    fn analyze_list(&mut self, es: &Vec<Expression>)
        ensures
            messages(final(self).diagnostics.diagnostics@) == messages(old(self).diagnostics.diagnostics@)
                + undefined_warnings(list_idents(es@)),
        decreases es@, 0nat,
    {
        let mut i: usize = 0;
        proof {
            assert(es@.subrange(0, 0) =~= Seq::<Expression>::empty());
            assert(messages(self.diagnostics.diagnostics@) =~= messages(old(self).diagnostics.diagnostics@)
                + undefined_warnings(list_idents(es@.subrange(0, 0))));
        }
        while i < es.len()
            invariant
                i <= es@.len(),
                messages(self.diagnostics.diagnostics@) == messages(old(self).diagnostics.diagnostics@)
                    + undefined_warnings(list_idents(es@.subrange(0, i as int))),
            decreases es@.len() - i,
        {
            proof {
                assert(decreases_to!(es@ => es@[i as int]));
                let t = es@.subrange(0, i + 1);
                assert(t.subrange(0, t.len() - 1) =~= es@.subrange(0, i as int));
                assert(t[t.len() - 1] == es@[i as int]);
            }
            self.analyze_expression(&es[i]);
            i = i + 1;
            proof {
                let t = es@.subrange(0, i as int);
                assert(undefined_warnings(list_idents(t)) =~= undefined_warnings(
                    list_idents(t.subrange(0, t.len() - 1)),
                ) + undefined_warnings(expr_idents(t[t.len() - 1])));
            }
        }
        proof {
            assert(es@.subrange(0, i as int) =~= es@);
        }
    }

    fn analyze_expression(&mut self, expr: &Expression)
        ensures
            messages(final(self).diagnostics.diagnostics@) == messages(old(self).diagnostics.diagnostics@)
                + undefined_warnings(expr_idents(*expr)),
        decreases *expr, 1nat,
    {
        let ghost m0 = messages(self.diagnostics.diagnostics@);
        match expr {
            Expression::Identifier(id) => self.warn_undefined(&id.name),
            Expression::ArrayAccess(aa) => {
                self.analyze_expression(&aa.array);
                self.analyze_expression(&aa.index);
                proof {
                    assert(undefined_warnings(expr_idents(*aa.array) + expr_idents(*aa.index)) =~= undefined_warnings(
                        expr_idents(*aa.array),
                    ) + undefined_warnings(expr_idents(*aa.index)));
                    assert(messages(self.diagnostics.diagnostics@) =~= m0 + undefined_warnings(
                        expr_idents(*expr),
                    ));
                }
            },
            Expression::PropertyAccess(pa) => self.analyze_expression(&pa.object),
            Expression::Call(c) => {
                self.analyze_expression(&c.callee);
                proof {
                    assert(decreases_to!(*expr => c.arguments));
                }
                self.analyze_list(&c.arguments);
                proof {
                    assert(undefined_warnings(expr_idents(*c.callee) + list_idents(c.arguments@)) =~= undefined_warnings(
                        expr_idents(*c.callee),
                    ) + undefined_warnings(list_idents(c.arguments@)));
                    assert(messages(self.diagnostics.diagnostics@) =~= m0 + undefined_warnings(
                        expr_idents(*expr),
                    ));
                }
            },
            Expression::BinaryOperation(bin) => {
                self.analyze_expression(&bin.left);
                self.analyze_expression(&bin.right);
                proof {
                    assert(undefined_warnings(expr_idents(*bin.left) + expr_idents(*bin.right)) =~= undefined_warnings(
                        expr_idents(*bin.left),
                    ) + undefined_warnings(expr_idents(*bin.right)));
                    assert(messages(self.diagnostics.diagnostics@) =~= m0 + undefined_warnings(
                        expr_idents(*expr),
                    ));
                }
            },
            Expression::UnaryOperation(un) => self.analyze_expression(&un.operand),
            Expression::PushOperation(push) => self.analyze_expression(&push.value),
            _ => {
                proof {
                    assert(messages(self.diagnostics.diagnostics@) =~= m0 + undefined_warnings(seq![]));
                }
            },
        }
    }

    /// Reports, for each instruction of the declaration in order, a
    /// `local_<n>` operand that none of its argument or local names
    /// defines, and each variable or varbit reference without a name. The
    /// declaration is not changed.
    pub fn analyze_declaration(&mut self, decl: &mut Declaration)
        ensures
            *final(decl) == *old(decl),
            messages(final(self).diagnostics.diagnostics@) == messages(old(self).diagnostics.diagnostics@)
                + instructions_messages(
                declared_names(old(decl).arguments@, old(decl).locals@),
                old(decl).instructions@,
            ),
    {
        let mut defined: Vec<String> = Vec::new();
        let mut a: usize = 0;
        while a < decl.arguments.len()
            invariant
                a <= decl.arguments@.len(),
                views_of(defined@) == decl.arguments@.take(a as int).map_values(|x: ArgumentVariable| x.name@),
            decreases decl.arguments@.len() - a,
        {
            let n = decl.arguments[a].name.clone();
            let ghost before = defined@;
            defined.push(n);
            proof {
                assert(n@ == decl.arguments@[a as int].name@);
                assert(views_of(defined@) =~= views_of(before).push(n@));
                assert(decl.arguments@.take(a + 1) =~= decl.arguments@.take(a as int).push(decl.arguments@[a as int]));
                assert(decl.arguments@.take(a + 1).map_values(|x: ArgumentVariable| x.name@) =~= decl.arguments@.take(
                    a as int,
                ).map_values(|x: ArgumentVariable| x.name@).push(n@));
            }
            a = a + 1;
        }
        let mut l: usize = 0;
        while l < decl.locals.len()
            invariant
                l <= decl.locals@.len(),
                views_of(defined@) == decl.arguments@.map_values(|x: ArgumentVariable| x.name@)
                    + decl.locals@.take(l as int).map_values(|x: LocalVariable| x.name@),
            decreases decl.locals@.len() - l,
        {
            proof {
                assert(decl.arguments@.take(decl.arguments@.len() as int) =~= decl.arguments@);
            }
            let n = decl.locals[l].name.clone();
            let ghost before = defined@;
            defined.push(n);
            proof {
                assert(n@ == decl.locals@[l as int].name@);
                assert(views_of(defined@) =~= views_of(before).push(n@));
                assert(decl.locals@.take(l + 1).map_values(|x: LocalVariable| x.name@) =~= decl.locals@.take(
                    l as int,
                ).map_values(|x: LocalVariable| x.name@).push(n@));
            }
            l = l + 1;
        }
        proof {
            assert(decl.arguments@.take(decl.arguments@.len() as int) =~= decl.arguments@);
            assert(decl.locals@.take(l as int) =~= decl.locals@);
            assert(views_of(defined@) =~= declared_names(decl.arguments@, decl.locals@));
        }
        let ghost names = declared_names(decl.arguments@, decl.locals@);
        let mut i: usize = 0;
        while i < decl.instructions.len()
            invariant
                i <= decl.instructions@.len(),
                views_of(defined@) == names,
                names == declared_names(decl.arguments@, decl.locals@),
                *decl == *old(decl),
                messages(self.diagnostics.diagnostics@) == messages(old(self).diagnostics.diagnostics@)
                    + instructions_messages(names, decl.instructions@.take(i as int)),
            decreases decl.instructions@.len() - i,
        {
            proof {
                assert(decl.instructions@.take(i + 1).drop_last() =~= decl.instructions@.take(i as int));
            }
            self.analyze_instruction(&defined, &decl.instructions[i]);
            i = i + 1;
        }
        proof {
            assert(decl.instructions@.take(i as int) =~= decl.instructions@);
        }
    }

    fn analyze_instruction(&mut self, defined: &Vec<String>, instr: &InstructionNode)
        ensures
            messages(final(self).diagnostics.diagnostics@) == messages(old(self).diagnostics.diagnostics@)
                + instruction_messages(views_of(defined@), *instr),
    {
        let ghost m0 = messages(self.diagnostics.diagnostics@);
        match &instr.operand {
            OperandNode::Local(idx) => {
                let mut name = string_from("local_");
                push_u64(&mut name, *idx as u64);
                let mut found = false;
                let mut k: usize = 0;
                while k < defined.len()
                    invariant
                        k <= defined@.len(),
                        found == (exists|j: int| 0 <= j < k && defined@[j]@ == name@),
                    decreases defined@.len() - k,
                {
                    if str_eq(defined[k].as_str(), name.as_str()) {
                        found = true;
                    }
                    k = k + 1;
                }
                proof {
                    if found {
                        let j = choose|j: int| 0 <= j < k && defined@[j]@ == name@;
                        assert(views_of(defined@)[j] == name@);
                    } else {
                        assert forall|j: int| 0 <= j < views_of(defined@).len() implies views_of(defined@)[j]
                            != name@ by {
                            assert(views_of(defined@)[j] == defined@[j]@);
                        }
                    }
                }
                if !found {
                    let mut msg = string_from("undefined local: ");
                    push_str(&mut msg, name.as_str());
                    self.diagnostics.warning(msg);
                }
                proof {
                    assert(messages(self.diagnostics.diagnostics@) =~= m0 + instruction_messages(
                        views_of(defined@),
                        *instr,
                    ));
                }
            },
            OperandNode::VarRef(vr) => {
                if vr.name.is_none() {
                    let mut msg = string_from("unresolved var ");
                    push_str(&mut msg, vr.domain.as_label());
                    push_str(&mut msg, ":");
                    push_u64(&mut msg, vr.id.0 as u64);
                    self.diagnostics.note(msg);
                }
                proof {
                    assert(messages(self.diagnostics.diagnostics@) =~= m0 + instruction_messages(
                        views_of(defined@),
                        *instr,
                    ));
                }
            },
            OperandNode::VarBitRef(vbr) => {
                if vbr.name.is_none() {
                    let mut msg = string_from("unresolved varbit ");
                    push_u64(&mut msg, vbr.id.0 as u64);
                    self.diagnostics.note(msg);
                }
                proof {
                    assert(messages(self.diagnostics.diagnostics@) =~= m0 + instruction_messages(
                        views_of(defined@),
                        *instr,
                    ));
                }
            },
            _ => {
                proof {
                    assert(messages(self.diagnostics.diagnostics@) =~= m0 + instruction_messages(
                        views_of(defined@),
                        *instr,
                    ));
                }
            },
        }
    }

    /// The diagnostics raised.
    pub fn finish(self) -> (r: Diagnostics)
        ensures
            r == self.diagnostics,
    {
        self.diagnostics
    }
}

impl Default for Sema {
    fn default() -> (r: Sema)
        ensures
            r.diagnostics.diagnostics@ == Seq::<Diagnostic>::empty(),
    {
        Sema::new()
    }
}

/// The character sequences of some strings.
pub open spec fn views_of(v: Seq<String>) -> Seq<Seq<char>> {
    v.map_values(|s: String| s@)
}

/// The type a variable of any domain is read as: a number.
pub fn var_domain_to_type(domain: VarDomain) -> (r: TypeAnnotation)
    ensures
        r == TypeAnnotation::Number,
{
    match domain {
        VarDomain::Player | VarDomain::Npc | VarDomain::Client | VarDomain::World | VarDomain::Region
        | VarDomain::Object | VarDomain::Clan | VarDomain::ClanSetting | VarDomain::Controller
        | VarDomain::PlayerGroup | VarDomain::Global => TypeAnnotation::Number,
    }
}

} // verus!
