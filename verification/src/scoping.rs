//! Which values an instruction may name: what the module holds, the
//! parameters of its function, and the results of the instructions before
//! it. Every module that the grammar yields keeps to that.

use vstd::prelude::*;
use crate::grammar::{
    args_at, body_at, call_at, call_inst, callee_of, declaration_at, expression_at, extern_at,
    fn_sig_at, follows_with, function_at, global_const_at, ident_at, is_end, let_at, literal_at,
    param_bindings, param_types, return_at, return_type, statement_at, unit_at, unit_module,
    unit_start, Callee,
};
use crate::ir::{FunctionView, Inst, InstView, Module, ModuleView, Value};
use crate::symbols::{resolve, Bindings};
use crate::theorems::{
    emits_into, keeps, lemma_args, lemma_body, lemma_call, lemma_declaration_keeps,
    lemma_emits_into_inst, lemma_expression, lemma_header, lemma_let, lemma_literal,
    lemma_return, lemma_statement, lemma_unit_keeps, same_or_longer,
};
use crate::tokens::tokens::{Literal, Token, TokenType};

verus! {

/// Whether the numbers in `m` are such as a machine holds: no more
/// functions, string constants or instructions in a body than an index
/// can count.
pub open spec fn fits(m: ModuleView) -> bool {
    &&& m.functions.len() <= usize::MAX
    &&& m.strings.len() <= usize::MAX
    &&& forall|f: int|
        0 <= f < m.functions.len() ==> (#[trigger] m.functions[f]).params.len() <= usize::MAX
    &&& forall|f: int|
        0 <= f < m.functions.len() && (#[trigger] m.functions[f]).body is Some
            ==> m.functions[f].body->Some_0.len() <= usize::MAX
}

/// A module that a machine holds fits.
pub proof fn lemma_modules_fit(m: Module)
    ensures
        fits(m@),
{
    assert(m@.functions.len() == m.functions.len());
    assert(m@.strings.len() == m.strings.len());
    assert forall|f: int| 0 <= f < m@.functions.len() implies (#[trigger] m@.functions[f]).params.len()
        <= usize::MAX && (m@.functions[f].body is Some ==> m@.functions[f].body->Some_0.len()
        <= usize::MAX) by {
        let g = m.functions@[f];
        assert(m@.functions[f] == g@);
        assert(g@.params.len() == g.params.len());
        if let Some(insts) = g.body {
            assert(g@.body->Some_0.len() == insts.len());
        }
    }
}

/// Whether `v` names something that every function of `m` may use: a
/// function or a string constant of `m`, or a number.
pub open spec fn shared(m: ModuleView, v: Value) -> bool {
    match v {
        Value::Function(i) => i < m.functions.len(),
        Value::Global(i) => i < m.strings.len(),
        Value::ConstInt(_, _) => true,
        _ => false,
    }
}

/// Whether `v` names something that instruction `at` of function `func`
/// may use: what is shared, a parameter of `func`, or the result of an
/// earlier instruction of `func`.
pub open spec fn in_scope(m: ModuleView, func: int, at: int, v: Value) -> bool {
    match v {
        Value::Param(f, i) => f == func && 0 <= func < m.functions.len() && i
            < m.functions[func].params.len(),
        Value::Inst(f, i) => f == func && i < at,
        _ => shared(m, v),
    }
}

/// The values that an instruction names.
pub open spec fn operands(inst: InstView) -> Seq<Value> {
    match inst {
        InstView::Binary { lhs, rhs, .. } => seq![lhs, rhs],
        InstView::Call { callee, args, .. } => seq![callee] + args,
        InstView::Ret(Some(v)) => seq![v],
        InstView::Ret(None) => Seq::empty(),
    }
}

/// Whether each value of `vs` may be used by instruction `at` of `func`.
pub open spec fn all_in_scope(m: ModuleView, func: int, at: int, vs: Seq<Value>) -> bool {
    forall|k: int| 0 <= k < vs.len() ==> in_scope(m, func, at, #[trigger] vs[k])
}

/// Whether each instruction of function `func` names only what it may.
pub open spec fn function_scoped(m: ModuleView, func: int) -> bool {
    m.functions[func].body is Some ==> forall|at: int|
        0 <= at < m.functions[func].body->Some_0.len() ==> all_in_scope(
            m,
            func,
            at,
            operands(#[trigger] m.functions[func].body->Some_0[at]),
        )
}

/// Whether each instruction of `m` names only what it may.
pub open spec fn well_scoped(m: ModuleView) -> bool {
    forall|f: int| 0 <= f < m.functions.len() ==> #[trigger] function_scoped(m, f)
}

/// Whether each name of `b` stands for something shared.
pub open spec fn bindings_shared(m: ModuleView, b: Bindings) -> bool {
    forall|name: Seq<char>| b.contains_key(name) ==> shared(m, (#[trigger] b[name]).1)
}

/// Whether each name of `b` stands for something that instruction `at` of
/// `func` may use.
pub open spec fn bindings_in_scope(m: ModuleView, func: int, at: int, b: Bindings) -> bool {
    forall|name: Seq<char>| b.contains_key(name) ==> in_scope(m, func, at, (#[trigger] b[name]).1)
}

impl Module {
    /// Whether `v` names something that instruction `at` of function
    /// `func` may use.
    pub fn value_in_scope(&self, func: usize, at: usize, v: &Value) -> (res: bool)
        ensures
            res == in_scope(self@, func as int, at as int, *v),
    {
        match *v {
            Value::Function(i) => i < self.functions.len(),
            Value::Global(i) => i < self.strings.len(),
            Value::Param(f, i) => f == func && func < self.functions.len() && i
                < self.functions[func].params.len(),
            Value::Inst(f, i) => f == func && i < at,
            Value::ConstInt(_, _) => true,
        }
    }

    /// Whether `inst`, as instruction `at` of function `func`, names only
    /// what it may.
    pub fn inst_in_scope(&self, func: usize, at: usize, inst: &Inst) -> (res: bool)
        ensures
            res == all_in_scope(self@, func as int, at as int, operands(inst@)),
    {
        match inst {
            Inst::Binary { lhs, rhs, .. } => {
                let a = self.value_in_scope(func, at, lhs);
                let b = self.value_in_scope(func, at, rhs);
                proof {
                    let vs = operands(inst@);
                    assert(vs[0] == *lhs && vs[1] == *rhs);
                }
                a && b
            },
            Inst::Call { callee, args, .. } => {
                let ghost vs = operands(inst@);
                assert(vs[0] == *callee);
                if !self.value_in_scope(func, at, callee) {
                    return false;
                }
                let mut k: usize = 0;
                while k < args.len()
                    invariant
                        k <= args@.len(),
                        vs == operands(inst@),
                        vs == seq![*callee] + args@,
                        forall|j: int|
                            0 <= j < k + 1 ==> in_scope(
                                self@,
                                func as int,
                                at as int,
                                #[trigger] vs[j],
                            ),
                    decreases args@.len() - k,
                {
                    assert(vs[k + 1] == args@[k as int]);
                    if !self.value_in_scope(func, at, &args[k]) {
                        return false;
                    }
                    k += 1;
                }
                true
            },
            Inst::Ret(Some(v)) => {
                proof {
                    let vs = operands(inst@);
                    assert(vs[0] == *v);
                }
                self.value_in_scope(func, at, v)
            },
            Inst::Ret(None) => true,
        }
    }

    /// Whether each instruction of function `func` names only what it may.
    pub fn function_is_scoped(&self, func: usize) -> (res: bool)
        requires
            func < self@.functions.len(),
        ensures
            res == function_scoped(self@, func as int),
    {
        match &self.functions[func].body {
            None => true,
            Some(insts) => {
                let ghost body = self@.functions[func as int].body->Some_0;
                let mut at: usize = 0;
                while at < insts.len()
                    invariant
                        func < self@.functions.len(),
                        at <= insts@.len(),
                        self.functions@[func as int].body == Some(*insts),
                        body == self@.functions[func as int].body->Some_0,
                        body.len() == insts@.len(),
                        forall|j: int|
                            0 <= j < at ==> all_in_scope(
                                self@,
                                func as int,
                                j,
                                operands(#[trigger] body[j]),
                            ),
                    decreases insts@.len() - at,
                {
                    assert(body[at as int] == insts@[at as int]@);
                    if !self.inst_in_scope(func, at, &insts[at]) {
                        return false;
                    }
                    at += 1;
                }
                true
            },
        }
    }

    /// Whether each instruction of the module names only what it may.
    pub fn is_well_scoped(&self) -> (res: bool)
        ensures
            res == well_scoped(self@),
    {
        let mut func: usize = 0;
        while func < self.functions.len()
            invariant
                func <= self@.functions.len(),
                forall|f: int| 0 <= f < func ==> #[trigger] function_scoped(self@, f),
            decreases self@.functions.len() - func,
        {
            if !self.function_is_scoped(func) {
                return false;
            }
            func += 1;
        }
        true
    }
}

/// How many instructions function `func` holds.
pub open spec fn emitted(m: ModuleView, func: int) -> int {
    m.functions[func].body->Some_0.len() as int
}

/// What the engine keeps to while it fills function `func`: the module is
/// well scoped, and the names that are bound stand for what the next
/// instruction may use.
pub open spec fn tidy(m: ModuleView, func: int, globals: Bindings, locals: Bindings) -> bool {
    &&& m.building(func)
    &&& well_scoped(m)
    &&& bindings_shared(m, globals)
    &&& bindings_in_scope(m, func, emitted(m, func), locals)
}

/// What may be used stays usable as function `func` is filled.
proof fn lemma_scope_widens(m: ModuleView, after: ModuleView, func: int, at: int, v: Value)
    requires
        emits_into(m, after, func),
        m.building(func),
        in_scope(m, func, at, v),
    ensures
        in_scope(after, func, at, v),
        at <= emitted(m, func) ==> in_scope(after, func, emitted(after, func), v),
        emitted(m, func) <= emitted(after, func),
        after.building(func),
{
    assert(same_or_longer(m.functions[func], after.functions[func]));
}

/// A tidy state stays tidy as function `func` is filled with well-scoped
/// instructions.
proof fn lemma_tidy_widens(
    m: ModuleView,
    after: ModuleView,
    func: int,
    globals: Bindings,
    locals: Bindings,
)
    requires
        tidy(m, func, globals, locals),
        emits_into(m, after, func),
        well_scoped(after),
    ensures
        tidy(after, func, globals, locals),
{
    assert(same_or_longer(m.functions[func], after.functions[func]));
    assert forall|name: Seq<char>| locals.contains_key(name) implies in_scope(
        after,
        func,
        emitted(after, func),
        (#[trigger] locals[name]).1,
    ) by {
        lemma_scope_widens(m, after, func, emitted(m, func), locals[name].1);
    }
}

/// A well-scoped module stays well scoped when a string constant is added.
proof fn lemma_string_keeps_scope(m: ModuleView, value: Seq<char>, name: Seq<char>)
    requires
        well_scoped(m),
    ensures
        well_scoped(m.with_string(value, name)),
{
    let after = m.with_string(value, name);
    assert forall|f: int| 0 <= f < after.functions.len() implies #[trigger] function_scoped(
        after,
        f,
    ) by {
        assert(function_scoped(m, f));
    }
}

/// A well-scoped module stays well scoped when an instruction is added
/// that names only what it may.
proof fn lemma_inst_keeps_scope(m: ModuleView, func: int, inst: InstView)
    requires
        well_scoped(m),
        m.building(func),
        all_in_scope(m, func, emitted(m, func), operands(inst)),
    ensures
        well_scoped(m.with_inst(func, inst)),
{
    let after = m.with_inst(func, inst);
    assert forall|f: int| 0 <= f < after.functions.len() implies #[trigger] function_scoped(
        after,
        f,
    ) by {
        assert(function_scoped(m, f));
        if f == func {
            let body = after.functions[f].body->Some_0;
            assert forall|at: int| 0 <= at < body.len() implies all_in_scope(
                after,
                f,
                at,
                operands(#[trigger] body[at]),
            ) by {
                if at < emitted(m, func) {
                    assert(body[at] == m.functions[f].body->Some_0[at]);
                    assert(all_in_scope(m, f, at, operands(m.functions[f].body->Some_0[at])));
                }
            }
        }
    }
}

/// A module that fits was made from modules that fit.
proof fn lemma_fits_back(m: ModuleView, after: ModuleView, func: int)
    requires
        emits_into(m, after, func),
        fits(after),
    ensures
        fits(m),
{
    assert forall|f: int| 0 <= f < m.functions.len() implies (#[trigger] m.functions[f]).params.len()
        <= usize::MAX && (m.functions[f].body is Some ==> m.functions[f].body->Some_0.len()
        <= usize::MAX) by {
        assert(same_or_longer(m.functions[f], after.functions[f]));
        assert(after.functions[f].params.len() <= usize::MAX);
    }
}

/// A module that fits came from modules that fit.
proof fn lemma_fits_kept(m: ModuleView, after: ModuleView)
    requires
        keeps(m, after),
        fits(after),
    ensures
        fits(m),
{
    assert forall|f: int| 0 <= f < m.functions.len() implies (#[trigger] m.functions[f]).params.len()
        <= usize::MAX && (m.functions[f].body is Some ==> m.functions[f].body->Some_0.len()
        <= usize::MAX) by {
        assert(m.functions[f] == after.functions[f]);
    }
}

/// What was well scoped and shared stays so when functions and string
/// constants are added behind what was there.
proof fn lemma_kept_scope(m: ModuleView, after: ModuleView, globals: Bindings)
    requires
        keeps(m, after),
        well_scoped(m),
        bindings_shared(m, globals),
    ensures
        bindings_shared(after, globals),
        forall|f: int| 0 <= f < m.functions.len() ==> #[trigger] function_scoped(after, f),
{
    assert forall|f: int| 0 <= f < m.functions.len() implies #[trigger] function_scoped(
        after,
        f,
    ) by {
        assert(function_scoped(m, f));
        assert(m.functions[f] == after.functions[f]);
    }
}

/// The value of the instruction that was emitted last may be used by the
/// next.
proof fn lemma_new_value_in_scope(m: ModuleView, func: int, inst: InstView)
    requires
        m.building(func),
        fits(m.with_inst(func, inst)),
    ensures
        in_scope(
            m.with_inst(func, inst),
            func,
            emitted(m.with_inst(func, inst), func),
            m.next_value(func),
        ),
{
    let after = m.with_inst(func, inst);
    assert(after.functions[func].body is Some);
}

/// A literal that was read left the state tidy, and its value may be used
/// by the next instruction.
pub proof fn lemma_literal_scoped(
    ts: Seq<Token>,
    pos: int,
    m: ModuleView,
    func: int,
    globals: Bindings,
    locals: Bindings,
)
    requires
        literal_at(ts, pos, m) is Ok,
        tidy(m, func, globals, locals),
        fits(literal_at(ts, pos, m)->Ok_0.module),
    ensures
        ({
            let r = literal_at(ts, pos, m)->Ok_0;
            tidy(r.module, func, globals, locals) && in_scope(
                r.module,
                func,
                emitted(r.module, func),
                r.value,
            )
        }),
{
    let r = literal_at(ts, pos, m)->Ok_0;
    lemma_literal(ts, pos, m, func, 0);
    if let TokenType::Literal(Literal::String(s)) = ts[pos + 1].tt {
        lemma_string_keeps_scope(m, s@, ""@);
    }
    lemma_tidy_widens(m, r.module, func, globals, locals);
}

/// An expression that was read left the state tidy, and its value may be
/// used by the next instruction.
pub proof fn lemma_expression_scoped(
    ts: Seq<Token>,
    pos: int,
    m: ModuleView,
    func: int,
    globals: Bindings,
    locals: Bindings,
    label: Seq<char>,
)
    requires
        expression_at(ts, pos, m, func, globals, locals, label) is Ok,
        tidy(m, func, globals, locals),
        fits(expression_at(ts, pos, m, func, globals, locals, label)->Ok_0.module),
    ensures
        ({
            let r = expression_at(ts, pos, m, func, globals, locals, label)->Ok_0;
            tidy(r.module, func, globals, locals) && in_scope(
                r.module,
                func,
                emitted(r.module, func),
                r.value,
            )
        }),
    decreases ts.len() - pos, 0nat,
{
    let word = ident_at(ts, pos, "[call|literal|<variable>]"@)->Ok_0;
    if word@ == "call"@ {
        lemma_call_scoped(ts, pos + 1, m, func, globals, locals, label);
    } else if word@ == "literal"@ {
        lemma_literal_scoped(ts, pos + 1, m, func, globals, locals);
    } else {
        let b = resolve(globals, locals, word@)->Some_0;
        if locals.contains_key(word@) {
            assert(in_scope(m, func, emitted(m, func), locals[word@].1));
        } else {
            assert(shared(m, globals[word@].1));
        }
    }
}

/// A call that was read left the state tidy, and its value may be used by
/// the next instruction.
pub proof fn lemma_call_scoped(
    ts: Seq<Token>,
    pos: int,
    m: ModuleView,
    func: int,
    globals: Bindings,
    locals: Bindings,
    label: Seq<char>,
)
    requires
        call_at(ts, pos, m, func, globals, locals, label) is Ok,
        tidy(m, func, globals, locals),
        fits(call_at(ts, pos, m, func, globals, locals, label)->Ok_0.module),
    ensures
        ({
            let r = call_at(ts, pos, m, func, globals, locals, label)->Ok_0;
            tidy(r.module, func, globals, locals) && in_scope(
                r.module,
                func,
                emitted(r.module, func),
                r.value,
            )
        }),
    decreases ts.len() - pos, 0nat,
{
    let r = call_at(ts, pos, m, func, globals, locals, label)->Ok_0;
    let tok = ts[pos];
    let callee = callee_of(tok, globals, locals)->Ok_0;
    lemma_call(ts, pos, m, func, globals, locals, label, 0);
    let (filled, args) = if follows_with(ts, pos + 1) {
        let a = args_at(ts, pos + 2, m, func, globals, locals)->Ok_0;
        (a.module, a.value)
    } else {
        (m, Seq::<Value>::empty())
    };
    let inst = call_inst(callee, args, label, tok)->Ok_0;
    assert(r.module == filled.with_inst(func, inst));
    if follows_with(ts, pos + 1) {
        lemma_args(ts, pos + 2, m, func, globals, locals, 0);
        crate::theorems::lemma_emits_into_inst(filled, func, inst);
        lemma_fits_back(filled, r.module, func);
        lemma_args_scoped(ts, pos + 2, m, func, globals, locals);
    }
    assert(tidy(filled, func, globals, locals));
    assert(all_in_scope(filled, func, emitted(filled, func), args));
    assert(all_in_scope(filled, func, emitted(filled, func), operands(inst))) by {
        match callee {
            Callee::Primitive(op) => {},
            Callee::Function(ty, value) => {
                if let TokenType::Ident(name) = tok.tt {
                    if locals.contains_key(name@) {
                        assert(in_scope(filled, func, emitted(filled, func), locals[name@].1));
                    } else {
                        assert(shared(filled, globals[name@].1));
                    }
                }
            },
        }
    }
    lemma_inst_keeps_scope(filled, func, inst);
    lemma_tidy_widens(m, r.module, func, globals, locals);
    lemma_new_value_in_scope(filled, func, inst);
}

/// Arguments that were read left the state tidy, and each of their values
/// may be used by the next instruction.
pub proof fn lemma_args_scoped(
    ts: Seq<Token>,
    pos: int,
    m: ModuleView,
    func: int,
    globals: Bindings,
    locals: Bindings,
)
    requires
        args_at(ts, pos, m, func, globals, locals) is Ok,
        tidy(m, func, globals, locals),
        fits(args_at(ts, pos, m, func, globals, locals)->Ok_0.module),
    ensures
        ({
            let r = args_at(ts, pos, m, func, globals, locals)->Ok_0;
            tidy(r.module, func, globals, locals) && all_in_scope(
                r.module,
                func,
                emitted(r.module, func),
                r.value,
            )
        }),
    decreases ts.len() - pos, 1nat,
{
    let r = args_at(ts, pos, m, func, globals, locals)->Ok_0;
    let word = ident_at(ts, pos, "[<arg>|end]"@)->Ok_0;
    if word@ != "end"@ {
        let first = expression_at(ts, pos, m, func, globals, locals, ""@)->Ok_0;
        lemma_expression(ts, pos, m, func, globals, locals, ""@, 0);
        lemma_args(ts, first.pos, first.module, func, globals, locals, 0);
        lemma_fits_back(first.module, r.module, func);
        lemma_expression_scoped(ts, pos, m, func, globals, locals, ""@);
        lemma_args_scoped(ts, first.pos, first.module, func, globals, locals);
        let rest = args_at(ts, first.pos, first.module, func, globals, locals)->Ok_0;
        lemma_scope_widens(
            first.module,
            r.module,
            func,
            emitted(first.module, func),
            first.value,
        );
        assert forall|k: int| 0 <= k < r.value.len() implies in_scope(
            r.module,
            func,
            emitted(r.module, func),
            #[trigger] r.value[k],
        ) by {
            if k > 0 {
                assert(r.value[k] == rest.value[k - 1]);
            }
        }
    }
}

/// A `let` statement that was read left the state tidy, the name it
/// bound included.
pub proof fn lemma_let_scoped(
    ts: Seq<Token>,
    pos: int,
    m: ModuleView,
    func: int,
    globals: Bindings,
    locals: Bindings,
)
    requires
        let_at(ts, pos, m, func, globals, locals) is Ok,
        tidy(m, func, globals, locals),
        fits(let_at(ts, pos, m, func, globals, locals)->Ok_0.module),
    ensures
        ({
            let r = let_at(ts, pos, m, func, globals, locals)->Ok_0;
            tidy(r.module, func, globals, r.value)
        }),
{
    let name = ident_at(ts, pos + 1, "name"@)->Ok_0;
    lemma_expression_scoped(ts, pos + 3, m, func, globals, locals, name@);
}

/// A `return` statement that was read left the state tidy.
pub proof fn lemma_return_scoped(
    ts: Seq<Token>,
    pos: int,
    m: ModuleView,
    func: int,
    globals: Bindings,
    locals: Bindings,
)
    requires
        return_at(ts, pos, m, func, globals, locals) is Ok,
        tidy(m, func, globals, locals),
        fits(return_at(ts, pos, m, func, globals, locals)->Ok_0.module),
    ensures
        tidy(return_at(ts, pos, m, func, globals, locals)->Ok_0.module, func, globals, locals),
{
    let r = return_at(ts, pos, m, func, globals, locals)->Ok_0;
    let word = ident_at(ts, pos, "[end|<var>]"@)->Ok_0;
    lemma_return(ts, pos, m, func, globals, locals, 0);
    if word@ == "end"@ {
        lemma_inst_keeps_scope(m, func, InstView::Ret(None));
    } else {
        let v = expression_at(ts, pos, m, func, globals, locals, ""@)->Ok_0;
        lemma_emits_into_inst(v.module, func, InstView::Ret(Some(v.value)));
        lemma_fits_back(v.module, r.module, func);
        lemma_expression_scoped(ts, pos, m, func, globals, locals, ""@);
        lemma_inst_keeps_scope(v.module, func, InstView::Ret(Some(v.value)));
    }
    lemma_tidy_widens(m, r.module, func, globals, locals);
}

/// A statement that was read left the state tidy.
pub proof fn lemma_statement_scoped(
    ts: Seq<Token>,
    pos: int,
    m: ModuleView,
    func: int,
    globals: Bindings,
    locals: Bindings,
)
    requires
        statement_at(ts, pos, m, func, globals, locals) is Ok,
        tidy(m, func, globals, locals),
        fits(statement_at(ts, pos, m, func, globals, locals)->Ok_0.module),
    ensures
        ({
            let r = statement_at(ts, pos, m, func, globals, locals)->Ok_0;
            tidy(r.module, func, globals, r.value)
        }),
{
    let word = ident_at(ts, pos, "[let|<expr>]"@)->Ok_0;
    if word@ == "let"@ {
        lemma_let_scoped(ts, pos + 1, m, func, globals, locals);
    } else if word@ == "return"@ {
        lemma_return_scoped(ts, pos + 1, m, func, globals, locals);
    } else {
        lemma_expression_scoped(ts, pos, m, func, globals, locals, ""@);
    }
}

/// A body that was read left the module well scoped.
pub proof fn lemma_body_scoped(
    ts: Seq<Token>,
    pos: int,
    m: ModuleView,
    func: int,
    globals: Bindings,
    locals: Bindings,
)
    requires
        body_at(ts, pos, m, func, globals, locals) is Ok,
        0 < pos,
        tidy(m, func, globals, locals),
        fits(body_at(ts, pos, m, func, globals, locals)->Ok_0.module),
    ensures
        ({
            let r = body_at(ts, pos, m, func, globals, locals)->Ok_0;
            &&& r.module.building(func)
            &&& well_scoped(r.module)
            &&& bindings_shared(r.module, globals)
        }),
    decreases ts.len() - pos,
{
    if !is_end(ts[pos]) {
        let r = body_at(ts, pos, m, func, globals, locals)->Ok_0;
        let s = statement_at(ts, pos, m, func, globals, locals)->Ok_0;
        lemma_statement(ts, pos, m, func, globals, locals, 0);
        lemma_body(ts, s.pos, s.module, func, globals, s.value);
        lemma_fits_back(s.module, r.module, func);
        lemma_statement_scoped(ts, pos, m, func, globals, locals);
        lemma_body_scoped(ts, s.pos, s.module, func, globals, s.value);
    }
}

/// As many types are read off a list of parameters as it has parameters.
proof fn lemma_param_types_len(params: Seq<(String, String)>)
    requires
        param_types(params) is Ok,
    ensures
        param_types(params)->Ok_0.len() == params.len(),
    decreases params.len(),
{
    if params.len() > 0 {
        lemma_param_types_len(params.drop_last());
    }
}

/// The parameters of a function may be used by its first instruction.
proof fn lemma_params_in_scope(
    m: ModuleView,
    func: int,
    params: Seq<(String, String)>,
    count: int,
    types: Seq<crate::ir::PrimTy>,
)
    requires
        0 <= func < m.functions.len() <= usize::MAX,
        params.len() <= count <= usize::MAX,
        m.functions[func].params.len() == count,
    ensures
        bindings_in_scope(m, func, 0, param_bindings(params, types, func)),
    decreases params.len(),
{
    if params.len() > 0 {
        lemma_params_in_scope(m, func, params.drop_last(), count, types);
    }
}

/// A well-scoped module stays well scoped when a function without
/// instructions is added.
proof fn lemma_function_keeps_scope(m: ModuleView, f: FunctionView)
    requires
        well_scoped(m),
        f.body is Some ==> f.body->Some_0.len() == 0,
    ensures
        well_scoped(m.with_function(f)),
{
    let after = m.with_function(f);
    assert forall|g: int| 0 <= g < after.functions.len() implies #[trigger] function_scoped(
        after,
        g,
    ) by {
        if g < m.functions.len() {
            assert(function_scoped(m, g));
            assert(after.functions[g] == m.functions[g]);
        }
    }
}

/// A declaration that was read left the module well scoped and the
/// globals bound to what is shared.
pub proof fn lemma_declaration_scoped(ts: Seq<Token>, pos: int, m: ModuleView, globals: Bindings)
    requires
        declaration_at(ts, pos, m, globals) is Ok,
        0 <= pos,
        well_scoped(m),
        bindings_shared(m, globals),
        fits(declaration_at(ts, pos, m, globals)->Ok_0.module),
    ensures
        ({
            let r = declaration_at(ts, pos, m, globals)->Ok_0;
            well_scoped(r.module) && bindings_shared(r.module, r.value)
        }),
{
    let r = declaration_at(ts, pos, m, globals)->Ok_0;
    let word = ts[pos].tt->Ident_0;
    lemma_declaration_keeps(ts, pos, m, globals);
    lemma_kept_scope(m, r.module, globals);
    if word@ == "const"@ {
        if let TokenType::Literal(Literal::String(s)) = ts[pos + 4].tt {
            lemma_string_keeps_scope(m, s@, ts[pos + 2].tt->Ident_0@);
        }
    } else if word@ == "extern"@ {
        let sig = fn_sig_at(ts, pos + 1)->Ok_0.0;
        let f = FunctionView {
            name: sig.name@,
            ret: return_type(sig.ret)->Ok_0,
            params: param_types(sig.params)->Ok_0,
            vararg: sig.vararg,
            body: None,
        };
        lemma_function_keeps_scope(m, f);
    } else {
        let (sig, start) = fn_sig_at(ts, pos)->Ok_0;
        let types = param_types(sig.params)->Ok_0;
        let func = m.functions.len() as int;
        let f = FunctionView {
            name: sig.name@,
            ret: return_type(sig.ret)->Ok_0,
            params: types,
            vararg: sig.vararg,
            body: Some(Seq::empty()),
        };
        let declared = m.with_function(f);
        let bound = r.value;
        let locals = param_bindings(sig.params, types, func);
        lemma_header(ts, pos, ts.len() as int);
        lemma_body(ts, start, declared, func, bound, locals);
        let body = body_at(ts, start, declared, func, bound, locals)->Ok_0.module;
        lemma_emits_into_inst(body, func, InstView::Ret(None));
        lemma_fits_back(body, r.module, func);
        lemma_fits_back(declared, body, func);
        lemma_function_keeps_scope(m, f);
        lemma_param_types_len(sig.params);
        lemma_params_in_scope(declared, func, sig.params, types.len() as int, types);
        assert(bindings_shared(declared, bound)) by {
            assert forall|name: Seq<char>| bound.contains_key(name) implies shared(
                declared,
                (#[trigger] bound[name]).1,
            ) by {
                if name != sig.name@ {
                    assert(shared(m, globals[name].1));
                }
            }
        }
        lemma_body_scoped(ts, start, declared, func, bound, locals);
        if sig.ret is None && !body.functions[func].is_terminated() {
            lemma_inst_keeps_scope(body, func, InstView::Ret(None));
        }
        assert(same_or_longer(declared.functions[func], body.functions[func]));
        assert forall|name: Seq<char>| bound.contains_key(name) implies shared(
            r.module,
            (#[trigger] bound[name]).1,
        ) by {
            assert(shared(body, bound[name].1));
        }
    }
}

/// The declarations of a unit that were read left the module well scoped
/// and the globals bound to what is shared.
pub proof fn lemma_unit_scoped(ts: Seq<Token>, pos: int, m: ModuleView, globals: Bindings)
    requires
        unit_at(ts, pos, m, globals) is Ok,
        well_scoped(m),
        bindings_shared(m, globals),
        fits(unit_at(ts, pos, m, globals)->Ok_0.module),
    ensures
        ({
            let r = unit_at(ts, pos, m, globals)->Ok_0;
            well_scoped(r.module) && bindings_shared(r.module, r.value)
        }),
    decreases ts.len() - pos,
{
    if 0 <= pos < ts.len() {
        let d = declaration_at(ts, pos, m, globals)->Ok_0;
        lemma_unit_keeps(ts, d.pos, d.module, d.value);
        lemma_fits_kept(d.module, unit_at(ts, pos, m, globals)->Ok_0.module);
        lemma_declaration_scoped(ts, pos, m, globals);
        lemma_unit_scoped(ts, d.pos, d.module, d.value);
    }
}

/// The module of a unit is well scoped: each of its instructions names
/// only functions and string constants of the module, parameters of its
/// own function, and results of instructions that stand before it in the
/// same function.
pub proof fn lemma_module_well_scoped(ts: Seq<Token>, start: int, name: Seq<char>)
    requires
        unit_module(ts, start, name) is Ok,
        fits(unit_module(ts, start, name)->Ok_0),
    ensures
        well_scoped(unit_module(ts, start, name)->Ok_0),
{
    let begun = unit_start(name);
    let none = Map::<Seq<char>, crate::symbols::Binding>::empty();
    let u = unit_at(ts, start, begun, none)->Ok_0;
    let (ty, callee) = u.value["main"@];
    let call = InstView::Call { ty, callee, args: Seq::empty(), name: ""@ };
    let called = u.module.with_inst(0, call);
    let done = called.with_inst(0, InstView::Ret(None));
    lemma_unit_keeps(ts, start, begun, none);
    assert(u.module.functions[0] == begun.functions[0]);
    lemma_emits_into_inst(u.module, 0, call);
    lemma_emits_into_inst(called, 0, InstView::Ret(None));
    lemma_fits_back(called, done, 0);
    lemma_fits_back(u.module, called, 0);
    assert(well_scoped(begun)) by {
        assert forall|f: int| 0 <= f < begun.functions.len() implies #[trigger] function_scoped(
            begun,
            f,
        ) by {}
    }
    lemma_unit_scoped(ts, start, begun, none);
    assert(shared(u.module, callee));
    lemma_inst_keeps_scope(u.module, 0, call);
    lemma_inst_keeps_scope(called, 0, InstView::Ret(None));
}

} // verus!
