//! What holds of every unit the grammar accepts.

use vstd::prelude::*;
use crate::grammar::{
    args_at, body_at, call_at, call_inst, callee_of, declaration_at, expression_at, extern_at,
    fn_sig_at, function_at, global_const_at, ident_at, is_end, let_at, literal_at,
    param_bindings, param_types, params_at, return_at, return_type, statement_at, unit_at,
    with_clause_at, Callee, Emitted,
};
use crate::ir::{BinOp, FunctionView, InstView, ModuleView, PrimTy, Ty, Value};
use crate::source::ParseETView;
use crate::symbols::{resolve, Bindings};
use crate::tokens::tokens::{Literal, Token, TokenType};

verus! {

/// After a constant is read, its name stands for a pointer to the string
/// constant that was added for it, whatever the name stood for before;
/// every other name stands for what it stood for.
pub proof fn lemma_const_binds_pointer(
    ts: Seq<Token>,
    pos: int,
    m: ModuleView,
    globals: Bindings,
    other: Seq<char>,
)
    requires
        global_const_at(ts, pos, m, globals) is Ok,
    ensures
        ({
            let after = global_const_at(ts, pos, m, globals)->Ok_0;
            let name = ts[pos + 2].tt->Ident_0@;
            let index = m.strings.len() as int;
            &&& resolve(after.value, Map::empty(), name) == Some(
                (Ty::Prim(PrimTy::Ptr), Value::Global(index as usize)),
            )
            &&& after.module.strings.len() == index + 1
            &&& after.module.strings[index].value == ts[pos + 4].tt->Literal_0->String_0@
            &&& other != name ==> resolve(after.value, Map::empty(), other) == resolve(
                globals,
                Map::empty(),
                other,
            )
        }),
{
}

/// Each parameter name stands, in the locals a body starts with, for the
/// argument in the position of the parameter, unless a later parameter has
/// the same name.
pub proof fn lemma_params_bound_in_order(
    params: Seq<(String, String)>,
    types: Seq<PrimTy>,
    func: int,
    globals: Bindings,
    i: int,
)
    requires
        0 <= i < params.len(),
        forall|j: int| i < j < params.len() ==> params[j].1@ != params[i].1@,
    ensures
        resolve(globals, param_bindings(params, types, func), params[i].1@) == Some(
            (Ty::Prim(types[i]), Value::Param(func as usize, i as usize)),
        ),
    decreases params.len(),
{
    if i < params.len() - 1 {
        let front = params.drop_last();
        assert(front[i] == params[i]);
        assert forall|j: int| i < j < front.len() implies front[j].1@ != front[i].1@ by {
            assert(front[j] == params[j]);
        }
        lemma_params_bound_in_order(front, types, func, globals, i);
    }
}

/// A primitive takes the last two arguments of its call, the one read
/// first on the left.
pub proof fn lemma_primitive_takes_last_two(op: BinOp, args: Seq<Value>, label: Seq<char>, at: Token)
    requires
        args.len() >= 2,
    ensures
        call_inst(Callee::Primitive(op), args, label, at) == Ok::<
            InstView,
            crate::source::ParseErrorView,
        >(
            InstView::Binary {
                op,
                lhs: args[args.len() - 2],
                rhs: args[args.len() - 1],
                name: label,
            },
        ),
{
}

/// What a function definition leaves among the globals is the binding of
/// the function and nothing else: no local of its body is bound when it
/// has ended.
pub proof fn lemma_function_leaves_no_locals(ts: Seq<Token>, pos: int, m: ModuleView, globals: Bindings)
    requires
        function_at(ts, pos, m, globals) is Ok,
    ensures
        ({
            let after = function_at(ts, pos, m, globals)->Ok_0;
            let sig = fn_sig_at(ts, pos)->Ok_0.0;
            let func = m.functions.len() as usize;
            after.value == globals.insert(sig.name@, (Ty::Signature(func), Value::Function(func)))
        }),
{
}

/// Function `b` is function `a` with, at most, more instructions at the
/// end of its body.
pub open spec fn same_or_longer(a: FunctionView, b: FunctionView) -> bool {
    &&& b.name == a.name
    &&& b.ret == a.ret
    &&& b.params == a.params
    &&& b.vararg == a.vararg
    &&& a.body is Some <==> b.body is Some
    &&& a.body is Some ==> a.body->Some_0.is_prefix_of(b.body->Some_0)
}

/// Module `after` is module `before` with, at most, more instructions at
/// the end of its functions and more string constants behind those it had.
pub open spec fn grows(before: ModuleView, after: ModuleView) -> bool {
    &&& after.name == before.name
    &&& after.functions.len() == before.functions.len()
    &&& forall|f: int|
        0 <= f < before.functions.len() ==> #[trigger] same_or_longer(
            before.functions[f],
            after.functions[f],
        )
    &&& before.strings.is_prefix_of(after.strings)
}

/// Module `after` is module `before` with, at most, more instructions at
/// the end of function `func` and more string constants: every other
/// function is what it was.
pub open spec fn emits_into(before: ModuleView, after: ModuleView, func: int) -> bool {
    &&& grows(before, after)
    &&& forall|f: int|
        0 <= f < before.functions.len() && f != func ==> #[trigger] after.functions[f]
            == before.functions[f]
}

proof fn lemma_emits_refl(m: ModuleView, func: int)
    ensures
        emits_into(m, m, func),
{
    lemma_grows_refl(m);
}

proof fn lemma_emits_trans(a: ModuleView, b: ModuleView, c: ModuleView, func: int)
    requires
        emits_into(a, b, func),
        emits_into(b, c, func),
    ensures
        emits_into(a, c, func),
{
    lemma_grows_trans(a, b, c);
    assert forall|f: int| 0 <= f < a.functions.len() && f != func implies #[trigger] c.functions[f]
        == a.functions[f] by {
        assert(b.functions[f] == a.functions[f]);
    }
}

/// Adding an instruction to function `func` emits into it and no other.
pub proof fn lemma_emits_into_inst(m: ModuleView, func: int, inst: InstView)
    ensures
        emits_into(m, m.with_inst(func, inst), func),
{
    lemma_emits_with_inst(m, func, inst);
}

proof fn lemma_emits_with_inst(m: ModuleView, func: int, inst: InstView)
    ensures
        emits_into(m, m.with_inst(func, inst), func),
{
    lemma_grows_with_inst(m, func, inst);
}

proof fn lemma_emits_with_string(m: ModuleView, value: Seq<char>, name: Seq<char>, func: int)
    ensures
        emits_into(m, m.with_string(value, name), func),
{
    lemma_grows_with_string(m, value, name);
}

proof fn lemma_grows_refl(m: ModuleView)
    ensures
        grows(m, m),
{
    assert forall|f: int| 0 <= f < m.functions.len() implies #[trigger] same_or_longer(
        m.functions[f],
        m.functions[f],
    ) by {}
}

proof fn lemma_grows_trans(a: ModuleView, b: ModuleView, c: ModuleView)
    requires
        grows(a, b),
        grows(b, c),
    ensures
        grows(a, c),
{
    assert forall|f: int| 0 <= f < a.functions.len() implies #[trigger] same_or_longer(
        a.functions[f],
        c.functions[f],
    ) by {
        assert(same_or_longer(a.functions[f], b.functions[f]));
        assert(same_or_longer(b.functions[f], c.functions[f]));
    }
}

proof fn lemma_grows_with_inst(m: ModuleView, func: int, inst: InstView)
    ensures
        grows(m, m.with_inst(func, inst)),
{
    let after = m.with_inst(func, inst);
    assert forall|f: int| 0 <= f < m.functions.len() implies #[trigger] same_or_longer(
        m.functions[f],
        after.functions[f],
    ) by {}
}

proof fn lemma_grows_with_string(m: ModuleView, value: Seq<char>, name: Seq<char>)
    ensures
        grows(m, m.with_string(value, name)),
{
    let after = m.with_string(value, name);
    assert forall|f: int| 0 <= f < m.functions.len() implies #[trigger] same_or_longer(
        m.functions[f],
        after.functions[f],
    ) by {}
}

/// What holds of a construct that was read from `pos` on with the result
/// `r`, the module having been `m` before: the construct took at least one
/// token and none that is not there, and it emitted into function `func`
/// and no other.
pub open spec fn sound<T>(ts: Seq<Token>, pos: int, m: ModuleView, func: int, r: Emitted<T>) -> bool {
    pos < r.pos <= ts.len() && emits_into(m, r.module, func)
}

/// A literal that was read took at least one token and none that is not
/// there, emitted into function `func` and no other, and did not depend on
/// the tokens behind it: the sequence cut off at any `k` behind it reads the
/// same.
pub proof fn lemma_literal(ts: Seq<Token>, pos: int, m: ModuleView, func: int, k: int)
    requires
        literal_at(ts, pos, m) is Ok,
    ensures
        sound(ts, pos, m, func, literal_at(ts, pos, m)->Ok_0),
        literal_at(ts, pos, m)->Ok_0.pos <= k <= ts.len() ==> literal_at(ts.take(k), pos, m)
            == literal_at(ts, pos, m),
{
    let r = literal_at(ts, pos, m)->Ok_0;
    if let TokenType::Literal(Literal::String(s)) = ts[pos + 1].tt {
        lemma_emits_with_string(m, s@, ""@, func);
    }
    lemma_emits_refl(m, func);
}

/// An expression that was read took at least one token and none that is not
/// there, emitted into function `func` and no other, and did not depend on
/// the tokens behind it: the sequence cut off at any `k` behind it reads the
/// same.
pub proof fn lemma_expression(
    ts: Seq<Token>,
    pos: int,
    m: ModuleView,
    func: int,
    globals: Bindings,
    locals: Bindings,
    label: Seq<char>,
    k: int,
)
    requires
        expression_at(ts, pos, m, func, globals, locals, label) is Ok,
    ensures
        sound(ts, pos, m, func, expression_at(ts, pos, m, func, globals, locals, label)->Ok_0),
        expression_at(ts, pos, m, func, globals, locals, label)->Ok_0.pos <= k <= ts.len()
            ==> expression_at(ts.take(k), pos, m, func, globals, locals, label) == expression_at(
            ts,
            pos,
            m,
            func,
            globals,
            locals,
            label,
        ),
    decreases ts.len() - pos, 0nat,
{
    let word = ident_at(ts, pos, "[call|literal|<variable>]"@)->Ok_0;
    if word@ == "call"@ {
        lemma_call(ts, pos + 1, m, func, globals, locals, label, k);
    } else if word@ == "literal"@ {
        lemma_literal(ts, pos + 1, m, func, k);
    } else {
        lemma_emits_refl(m, func);
    }
}

/// A call that was read took at least one token and none that is not
/// there, emitted into function `func` and no other, and did not depend on
/// the tokens behind it: the sequence cut off at any `k` behind it reads the
/// same.
pub proof fn lemma_call(
    ts: Seq<Token>,
    pos: int,
    m: ModuleView,
    func: int,
    globals: Bindings,
    locals: Bindings,
    label: Seq<char>,
    k: int,
)
    requires
        call_at(ts, pos, m, func, globals, locals, label) is Ok,
    ensures
        sound(ts, pos, m, func, call_at(ts, pos, m, func, globals, locals, label)->Ok_0),
        call_at(ts, pos, m, func, globals, locals, label)->Ok_0.pos <= k <= ts.len() ==> call_at(
            ts.take(k),
            pos,
            m,
            func,
            globals,
            locals,
            label,
        ) == call_at(ts, pos, m, func, globals, locals, label),
    decreases ts.len() - pos, 0nat,
{
    let tok = ts[pos];
    let callee = callee_of(tok, globals, locals)->Ok_0;
    if crate::grammar::follows_with(ts, pos + 1) {
        lemma_args(ts, pos + 2, m, func, globals, locals, k);
        let a = args_at(ts, pos + 2, m, func, globals, locals)->Ok_0;
        let inst = call_inst(callee, a.value, label, tok)->Ok_0;
        lemma_emits_with_inst(a.module, func, inst);
        lemma_emits_trans(m, a.module, a.module.with_inst(func, inst), func);
    } else {
        let inst = call_inst(callee, Seq::empty(), label, tok)->Ok_0;
        lemma_emits_with_inst(m, func, inst);
    }
}

/// Arguments that were read, with their closing `end`, took at least one
/// token and none that is not there, emitted into function `func` and no
/// other, and did not depend on the tokens behind them.
pub proof fn lemma_args(
    ts: Seq<Token>,
    pos: int,
    m: ModuleView,
    func: int,
    globals: Bindings,
    locals: Bindings,
    k: int,
)
    requires
        args_at(ts, pos, m, func, globals, locals) is Ok,
    ensures
        sound(ts, pos, m, func, args_at(ts, pos, m, func, globals, locals)->Ok_0),
        args_at(ts, pos, m, func, globals, locals)->Ok_0.pos <= k <= ts.len() ==> args_at(
            ts.take(k),
            pos,
            m,
            func,
            globals,
            locals,
        ) == args_at(ts, pos, m, func, globals, locals),
    decreases ts.len() - pos, 1nat,
{
    let word = ident_at(ts, pos, "[<arg>|end]"@)->Ok_0;
    if word@ == "end"@ {
        lemma_emits_refl(m, func);
    } else {
        lemma_expression(ts, pos, m, func, globals, locals, ""@, k);
        let first = expression_at(ts, pos, m, func, globals, locals, ""@)->Ok_0;
        lemma_args(ts, first.pos, first.module, func, globals, locals, k);
        let rest = args_at(ts, first.pos, first.module, func, globals, locals)->Ok_0;
        lemma_emits_trans(m, first.module, rest.module, func);
    }
}

/// A `let` statement that was read took at least one token and none that is not
/// there, emitted into function `func` and no other, and did not depend on
/// the tokens behind it: the sequence cut off at any `k` behind it reads the
/// same.
pub proof fn lemma_let(
    ts: Seq<Token>,
    pos: int,
    m: ModuleView,
    func: int,
    globals: Bindings,
    locals: Bindings,
    k: int,
)
    requires
        let_at(ts, pos, m, func, globals, locals) is Ok,
    ensures
        sound(ts, pos, m, func, let_at(ts, pos, m, func, globals, locals)->Ok_0),
        let_at(ts, pos, m, func, globals, locals)->Ok_0.pos <= k <= ts.len() ==> let_at(
            ts.take(k),
            pos,
            m,
            func,
            globals,
            locals,
        ) == let_at(ts, pos, m, func, globals, locals),
{
    let name = ident_at(ts, pos + 1, "name"@)->Ok_0;
    lemma_expression(ts, pos + 3, m, func, globals, locals, name@, k);
}

/// A `return` statement that was read took at least one token and none that is not
/// there, emitted into function `func` and no other, and did not depend on
/// the tokens behind it: the sequence cut off at any `k` behind it reads the
/// same.
pub proof fn lemma_return(
    ts: Seq<Token>,
    pos: int,
    m: ModuleView,
    func: int,
    globals: Bindings,
    locals: Bindings,
    k: int,
)
    requires
        return_at(ts, pos, m, func, globals, locals) is Ok,
    ensures
        sound(ts, pos, m, func, return_at(ts, pos, m, func, globals, locals)->Ok_0),
        return_at(ts, pos, m, func, globals, locals)->Ok_0.pos <= k <= ts.len() ==> return_at(
            ts.take(k),
            pos,
            m,
            func,
            globals,
            locals,
        ) == return_at(ts, pos, m, func, globals, locals),
{
    let word = ident_at(ts, pos, "[end|<var>]"@)->Ok_0;
    if word@ == "end"@ {
        lemma_emits_with_inst(m, func, InstView::Ret(None));
    } else {
        lemma_expression(ts, pos, m, func, globals, locals, ""@, k);
        let v = expression_at(ts, pos, m, func, globals, locals, ""@)->Ok_0;
        lemma_emits_with_inst(v.module, func, InstView::Ret(Some(v.value)));
        lemma_emits_trans(m, v.module, v.module.with_inst(func, InstView::Ret(Some(v.value))), func);
    }
}

/// A statement that was read took at least one token and none that is not
/// there, emitted into function `func` and no other, and did not depend on
/// the tokens behind it: the sequence cut off at any `k` behind it reads the
/// same.
pub proof fn lemma_statement(
    ts: Seq<Token>,
    pos: int,
    m: ModuleView,
    func: int,
    globals: Bindings,
    locals: Bindings,
    k: int,
)
    requires
        statement_at(ts, pos, m, func, globals, locals) is Ok,
    ensures
        sound(ts, pos, m, func, statement_at(ts, pos, m, func, globals, locals)->Ok_0),
        statement_at(ts, pos, m, func, globals, locals)->Ok_0.pos <= k <= ts.len()
            ==> statement_at(ts.take(k), pos, m, func, globals, locals) == statement_at(
            ts,
            pos,
            m,
            func,
            globals,
            locals,
        ),
{
    let word = ident_at(ts, pos, "[let|<expr>]"@)->Ok_0;
    if word@ == "let"@ {
        lemma_let(ts, pos + 1, m, func, globals, locals, k);
    } else if word@ == "return"@ {
        lemma_return(ts, pos + 1, m, func, globals, locals, k);
    } else {
        lemma_expression(ts, pos, m, func, globals, locals, ""@, k);
    }
}

/// A body that was read ends on the word `end`, and it emitted into its
/// function and no other. Without that `end` and what follows it, reading the
/// body fails for want of a token.
pub proof fn lemma_body(
    ts: Seq<Token>,
    pos: int,
    m: ModuleView,
    func: int,
    globals: Bindings,
    locals: Bindings,
)
    requires
        body_at(ts, pos, m, func, globals, locals) is Ok,
        0 < pos,
    ensures
        ({
            let r = body_at(ts, pos, m, func, globals, locals)->Ok_0;
            let cut = body_at(ts.take(r.pos), pos, m, func, globals, locals);
            &&& pos <= r.pos < ts.len()
            &&& is_end(ts[r.pos])
            &&& emits_into(m, r.module, func)
            &&& cut is Err
            &&& cut->Err_0.error.et == ParseETView::EOF
        }),
    decreases ts.len() - pos,
{
    let r = body_at(ts, pos, m, func, globals, locals)->Ok_0;
    if is_end(ts[pos]) {
        lemma_emits_refl(m, func);
    } else {
        let s = statement_at(ts, pos, m, func, globals, locals)->Ok_0;
        lemma_body(ts, s.pos, s.module, func, globals, s.value);
        lemma_statement(ts, pos, m, func, globals, locals, r.pos);
        lemma_emits_trans(m, s.module, r.module, func);
        assert(ts.take(r.pos)[pos] == ts[pos]);
    }
}

/// A parameter list that was read took at least one token and none that
/// is not there, and the tokens behind it had no part in it.
pub proof fn lemma_params(ts: Seq<Token>, pos: int, first: bool, k: int)
    requires
        params_at(ts, pos, first) is Ok,
    ensures
        pos < params_at(ts, pos, first)->Ok_0.1 <= ts.len(),
        params_at(ts, pos, first)->Ok_0.1 <= k <= ts.len() ==> params_at(ts.take(k), pos, first)
            == params_at(ts, pos, first),
    decreases ts.len() - pos,
{
    let expected = if first {
        "[with|do|end|<type>]"@
    } else {
        "[do|end]"@
    };
    let ty = ident_at(ts, pos, expected)->Ok_0;
    if !crate::grammar::closes_header(ty@) {
        lemma_params(ts, pos + 2, false, k);
    }
}

/// A header that was read took at least one token and none that is not
/// there, and the tokens behind it had no part in it.
pub proof fn lemma_header(ts: Seq<Token>, pos: int, k: int)
    requires
        fn_sig_at(ts, pos) is Ok,
    ensures
        pos < fn_sig_at(ts, pos)->Ok_0.1 <= ts.len(),
        fn_sig_at(ts, pos)->Ok_0.1 <= k <= ts.len() ==> fn_sig_at(ts.take(k), pos) == fn_sig_at(
            ts,
            pos,
        ),
{
    let name = ident_at(ts, pos + 1, "name"@)->Ok_0;
    let n = ident_at(ts, pos + 2, "[with|do|end|<type>]"@)->Ok_0;
    if crate::grammar::closes_header(n@) {
    } else if n@ == "with"@ {
        lemma_with_clause(ts, pos + 3, name, None, k);
    } else {
        let n2 = ident_at(ts, pos + 3, "[with|do|end]"@)->Ok_0;
        if crate::grammar::closes_header(n2@) {
        } else {
            lemma_with_clause(ts, pos + 4, name, Some(n), k);
        }
    }
}

proof fn lemma_with_clause(ts: Seq<Token>, pos: int, name: String, ret: Option<String>, k: int)
    requires
        with_clause_at(ts, pos, name, ret) is Ok,
    ensures
        pos < with_clause_at(ts, pos, name, ret)->Ok_0.1 <= ts.len(),
        with_clause_at(ts, pos, name, ret)->Ok_0.1 <= k <= ts.len() ==> with_clause_at(
            ts.take(k),
            pos,
            name,
            ret,
        ) == with_clause_at(ts, pos, name, ret),
{
    let word = ident_at(ts, pos, "<vararg?>"@)->Ok_0;
    if word@ == "vararg"@ {
        lemma_params(ts, pos + 1, true, k);
    } else {
        lemma_params(ts, pos, true, k);
    }
}

/// A function without return type that was read has a body that ends with
/// a return, and returns nothing.
pub proof fn lemma_implicit_return(ts: Seq<Token>, pos: int, m: ModuleView, globals: Bindings)
    requires
        function_at(ts, pos, m, globals) is Ok,
        fn_sig_at(ts, pos)->Ok_0.0.ret is None,
        0 <= pos,
    ensures
        ({
            let after = function_at(ts, pos, m, globals)->Ok_0.module;
            let func = m.functions.len() as int;
            &&& after.functions.len() == func + 1
            &&& after.functions[func].ret == PrimTy::Void
            &&& after.functions[func].is_terminated()
        }),
{
    let (sig, start) = fn_sig_at(ts, pos)->Ok_0;
    let types = param_types(sig.params)->Ok_0;
    let func = m.functions.len() as int;
    let declared = m.with_function(
        FunctionView {
            name: sig.name@,
            ret: PrimTy::Void,
            params: types,
            vararg: sig.vararg,
            body: Some(Seq::empty()),
        },
    );
    let bound = function_at(ts, pos, m, globals)->Ok_0.value;
    let locals = param_bindings(sig.params, types, func);
    lemma_header(ts, pos, ts.len() as int);
    lemma_body(ts, start, declared, func, bound, locals);
    let body = body_at(ts, start, declared, func, bound, locals)->Ok_0;
    assert(same_or_longer(declared.functions[func], body.module.functions[func]));
}

/// A function definition that lacks its closing `end`, the tokens ending
/// where it would stand, fails for want of a token and in no other way.
pub proof fn lemma_missing_end(ts: Seq<Token>, pos: int, m: ModuleView, globals: Bindings)
    requires
        function_at(ts, pos, m, globals) is Ok,
        0 <= pos,
    ensures
        ({
            let end = function_at(ts, pos, m, globals)->Ok_0.pos - 1;
            let cut = function_at(ts.take(end), pos, m, globals);
            &&& pos < end < ts.len()
            &&& is_end(ts[end])
            &&& cut is Err
            &&& cut->Err_0.error.et == ParseETView::EOF
        }),
{
    let (sig, start) = fn_sig_at(ts, pos)->Ok_0;
    let ret = return_type(sig.ret)->Ok_0;
    let types = param_types(sig.params)->Ok_0;
    let func = m.functions.len() as int;
    let declared = m.with_function(
        FunctionView {
            name: sig.name@,
            ret,
            params: types,
            vararg: sig.vararg,
            body: Some(Seq::empty()),
        },
    );
    let bound = function_at(ts, pos, m, globals)->Ok_0.value;
    let locals = param_bindings(sig.params, types, func);
    lemma_header(ts, pos, ts.len() as int);
    lemma_body(ts, start, declared, func, bound, locals);
    let body = body_at(ts, start, declared, func, bound, locals)->Ok_0;
    lemma_header(ts, pos, body.pos);
}

/// Module `after` is module `before` with, at most, more functions and
/// string constants behind those it had: what `before` held of either is
/// what `after` holds.
pub open spec fn keeps(before: ModuleView, after: ModuleView) -> bool {
    &&& after.name == before.name
    &&& before.functions.is_prefix_of(after.functions)
    &&& before.strings.is_prefix_of(after.strings)
}

/// A declaration leaves every function that was there before it as it
/// was, and every string constant: a function is final when its
/// declaration has been read.
pub proof fn lemma_declaration_keeps(ts: Seq<Token>, pos: int, m: ModuleView, globals: Bindings)
    requires
        declaration_at(ts, pos, m, globals) is Ok,
        0 <= pos,
    ensures
        keeps(m, declaration_at(ts, pos, m, globals)->Ok_0.module),
{
    let after = declaration_at(ts, pos, m, globals)->Ok_0.module;
    let word = ts[pos].tt->Ident_0;
    if word@ == "const"@ {
    } else if word@ == "extern"@ {
    } else {
        let (sig, start) = fn_sig_at(ts, pos)->Ok_0;
        let ret = return_type(sig.ret)->Ok_0;
        let types = param_types(sig.params)->Ok_0;
        let func = m.functions.len() as int;
        let declared = m.with_function(
            FunctionView {
                name: sig.name@,
                ret,
                params: types,
                vararg: sig.vararg,
                body: Some(Seq::empty()),
            },
        );
        let bound = function_at(ts, pos, m, globals)->Ok_0.value;
        let locals = param_bindings(sig.params, types, func);
        lemma_header(ts, pos, ts.len() as int);
        lemma_body(ts, start, declared, func, bound, locals);
        let body = body_at(ts, start, declared, func, bound, locals)->Ok_0.module;
        lemma_emits_with_inst(body, func, InstView::Ret(None));
        lemma_emits_trans(declared, body, after, func);
        assert forall|f: int| 0 <= f < m.functions.len() implies m.functions[f]
            == after.functions[f] by {
            assert(after.functions[f] == declared.functions[f]);
        }
    }
}

/// The declarations of a unit leave every function that was there before
/// them as it was, and every string constant.
pub proof fn lemma_unit_keeps(ts: Seq<Token>, pos: int, m: ModuleView, globals: Bindings)
    requires
        unit_at(ts, pos, m, globals) is Ok,
    ensures
        keeps(m, unit_at(ts, pos, m, globals)->Ok_0.module),
    decreases ts.len() - pos,
{
    if 0 <= pos < ts.len() {
        let d = declaration_at(ts, pos, m, globals)->Ok_0;
        lemma_declaration_keeps(ts, pos, m, globals);
        lemma_unit_keeps(ts, d.pos, d.module, d.value);
    }
}

} // verus!
