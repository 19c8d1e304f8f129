//! The engine: it reads declarations off a token cursor and emits them.

use vstd::prelude::*;
use crate::grammar::{
    args_at, binary_op, body_at, call_at, call_inst, callee_of, closes_header, declaration_at,
    expression_at, extern_at, fn_sig_at, function_at, global_const_at, ident_at, is_end,
    keyword_at, let_at, literal_at, param_bindings, param_types, params_after, params_at,
    return_at, return_type, statement_at, type_named, unit_at, unit_module, unit_start,
    with_clause_at, Callee, Declared, Emitted, FnSig, Parsed,
};
use crate::ir::{BinOp, Inst, Module, PrimTy, Ty, Value};
use crate::scoping::{lemma_module_well_scoped, lemma_modules_fit, well_scoped};
use crate::source::{ParseError, ParseET};
use crate::symbols::{get_var, Bindings, SymbolTable};
use crate::text::{push_decimal, same_text};
use crate::tokens::tok_iter::TokIter;
use crate::tokens::tokens::{Literal, NumLit, Token, TokenType};

verus! {

/// Takes the name under the cursor.
pub fn ident_next(tokens: &mut TokIter, expected: &str) -> (res: Result<String, ParseError>)
    ensures
        final(tokens).vec == old(tokens).vec,
        match ident_at(old(tokens).vec@, old(tokens).index as int, expected@) {
            Ok(name) => res == Ok::<String, ParseError>(name) && final(tokens).index == old(
                tokens,
            ).index + 1,
            Err(e) => res is Err && res->Err_0@ == e && final(tokens).index == old(tokens).index,
        },
{
    let tok = match tokens.this() {
        Ok(tok) => tok,
        Err(e) => return Err(e),
    };
    match tok.tt {
        TokenType::Ident(name) => {
            assert(tokens.index < tokens.vec.len());
            tokens.next();
            Ok(name)
        },
        tt => {
            let found = tt.describe();
            Err(ParseET::ParseError(expected.to_owned(), found).at(tok.loc))
        },
    }
}

/// Takes the keyword `expected` under the cursor.
pub fn expect_ident(tokens: &mut TokIter, expected: &str) -> (res: Result<(), ParseError>)
    ensures
        final(tokens).vec == old(tokens).vec,
        match keyword_at(old(tokens).vec@, old(tokens).index as int, expected@) {
            Ok(_) => res is Ok && final(tokens).index == old(tokens).index + 1,
            Err(e) => res is Err && res->Err_0@ == e && final(tokens).index == old(tokens).index,
        },
{
    let tok = match tokens.this() {
        Ok(tok) => tok,
        Err(e) => return Err(e),
    };
    match tok.tt {
        TokenType::Ident(name) => {
            if same_text(name.as_str(), expected) {
                assert(tokens.index < tokens.vec.len());
                tokens.next();
                Ok(())
            } else {
                Err(ParseET::ParseError(expected.to_owned(), name).at(tok.loc))
            }
        },
        tt => {
            let found = tt.describe();
            Err(ParseET::ParseError(expected.to_owned(), found).at(tok.loc))
        },
    }
}

/// Whether a header as the engine hands it out is the header `sig`.
pub open spec fn is_sig(got: (String, Option<String>, Vec<(String, String)>, bool), sig: FnSig) -> bool {
    got.0 == sig.name && got.1 == sig.ret && got.2@ == sig.params && got.3 == sig.vararg
}

/// Whether a name is `do` or `end`.
fn is_closing(word: &String) -> (res: bool)
    ensures
        res == closes_header(word@),
{
    same_text(word.as_str(), "do") || same_text(word.as_str(), "end")
}

/// Reads a parameter list up to and with the word that closes it.
fn params(tokens: &mut TokIter) -> (res: Result<Vec<(String, String)>, ParseError>)
    ensures
        final(tokens).vec == old(tokens).vec,
        match params_at(old(tokens).vec@, old(tokens).index as int, true) {
            Ok((ps, end)) => res is Ok && res->Ok_0@ == ps && final(tokens).index == end,
            Err(r) => res is Err && res->Err_0@ == r.error && final(tokens).index == r.pos,
        },
        res is Ok ==> old(tokens).index < final(tokens).index <= old(tokens).vec.len(),
{
    let mut args: Vec<(String, String)> = Vec::new();
    let mut first = true;
    loop
        invariant
            tokens.vec == old(tokens).vec,
            old(tokens).index <= tokens.index,
            params_at(old(tokens).vec@, old(tokens).index as int, true) == params_after(
                args@,
                params_at(tokens.vec@, tokens.index as int, first),
            ),
        decreases tokens.vec.len() - tokens.index,
    {
        let ghost before = tokens.index as int;
        let expected = if first {
            "[with|do|end|<type>]"
        } else {
            "[do|end]"
        };
        let ty = match ident_next(tokens, expected) {
            Ok(ty) => ty,
            Err(e) => return Err(e),
        };
        assert(tokens.index <= tokens.vec.len());
        if is_closing(&ty) {
            assert(args@ + Seq::<(String, String)>::empty() =~= args@);
            return Ok(args);
        }
        let name = match ident_next(tokens, "name") {
            Ok(name) => name,
            Err(e) => return Err(e),
        };
        proof {
            let rest = params_at(tokens.vec@, before + 2, false);
            if let Ok((more, end)) = rest {
                assert(args@.push((ty, name)) + more =~= args@ + (seq![(ty, name)] + more));
            }
        }
        args.push((ty, name));
        first = false;
    }
}

/// Reads what follows `with` in a header.
fn with_clause(tokens: &mut TokIter, name: String, ret: Option<String>) -> (res: Result<
    (String, Option<String>, Vec<(String, String)>, bool),
    ParseError,
>)
    ensures
        final(tokens).vec == old(tokens).vec,
        match with_clause_at(old(tokens).vec@, old(tokens).index as int, name, ret) {
            Ok((sig, end)) => res is Ok && is_sig(res->Ok_0, sig) && final(tokens).index == end,
            Err(r) => res is Err && res->Err_0@ == r.error && final(tokens).index == r.pos,
        },
        res is Ok ==> old(tokens).index < final(tokens).index <= old(tokens).vec.len(),
{
    let word = match ident_next(tokens, "<vararg?>") {
        Ok(word) => word,
        Err(e) => return Err(e),
    };
    let vararg = same_text(word.as_str(), "vararg");
    if !vararg {
        tokens.index -= 1;
    }
    match params(tokens) {
        Ok(args) => Ok((name, ret, args, vararg)),
        Err(e) => Err(e),
    }
}

/// Reads a function header: `fn`, the name, a return type if one is
/// written, the parameters if `with` introduces them, and the closing `do`
/// or `end`. After a failure the cursor rests on the token that was not
/// accepted.
pub fn fn_sig(tokens: &mut TokIter) -> (res: Result<
    (String, Option<String>, Vec<(String, String)>, bool),
    ParseError,
>)
    ensures
        final(tokens).vec == old(tokens).vec,
        match fn_sig_at(old(tokens).vec@, old(tokens).index as int) {
            Ok((sig, end)) => res is Ok && is_sig(res->Ok_0, sig) && final(tokens).index == end,
            Err(r) => res is Err && res->Err_0@ == r.error && final(tokens).index == r.pos,
        },
        res is Ok ==> old(tokens).index < final(tokens).index <= old(tokens).vec.len(),
{
    match expect_ident(tokens, "fn") {
        Ok(_) => {},
        Err(e) => return Err(e),
    }
    let name = match ident_next(tokens, "name") {
        Ok(name) => name,
        Err(e) => return Err(e),
    };
    let n = match ident_next(tokens, "[with|do|end|<type>]") {
        Ok(n) => n,
        Err(e) => return Err(e),
    };
    assert(tokens.index <= tokens.vec.len());
    if is_closing(&n) {
        return Ok((name, None, Vec::new(), false));
    }
    if same_text(n.as_str(), "with") {
        return with_clause(tokens, name, None);
    }
    let n2 = match ident_next(tokens, "[with|do|end]") {
        Ok(n2) => n2,
        Err(e) => return Err(e),
    };
    assert(tokens.index <= tokens.vec.len());
    if is_closing(&n2) {
        return Ok((name, Some(n), Vec::new(), false));
    }
    if same_text(n2.as_str(), "with") {
        return with_clause(tokens, name, Some(n));
    }
    tokens.index -= 1;
    Err(
        ParseET::ParseError("[with|do|end]".to_owned(), n2).at(
            tokens.vec[tokens.index].loc.clone(),
        ),
    )
}

/// The primitive type that a type name stands for.
pub fn ty_str_to_ty(ty: &str) -> (res: Result<PrimTy, ParseError>)
    ensures
        match type_named(ty@) {
            Ok(t) => res == Ok::<PrimTy, ParseError>(t),
            Err(e) => res is Err && res->Err_0@ == e,
        },
{
    if same_text(ty, "void") {
        Ok(PrimTy::Void)
    } else if same_text(ty, "ptr") {
        Ok(PrimTy::Ptr)
    } else if same_text(ty, "i8") {
        Ok(PrimTy::I8)
    } else if same_text(ty, "i32") {
        Ok(PrimTy::I32)
    } else if same_text(ty, "i64") {
        Ok(PrimTy::I64)
    } else if same_text(ty, "i128") {
        Ok(PrimTy::I128)
    } else {
        Err(ParseET::ParseError("valid type".to_owned(), ty.to_owned()).error())
    }
}

/// The primitive that an operator symbol stands for.
pub fn operator(c: char) -> (res: Option<BinOp>)
    ensures
        res == binary_op(c),
{
    if c == '+' {
        Some(BinOp::Add)
    } else if c == '-' {
        Some(BinOp::Sub)
    } else if c == '*' {
        Some(BinOp::Mul)
    } else if c == '/' {
        Some(BinOp::SDiv)
    } else if c == '&' {
        Some(BinOp::And)
    } else if c == '|' {
        Some(BinOp::Or)
    } else {
        None
    }
}

/// What the token after `call` names.
fn callee(tok: &Token, varmap: &SymbolTable, local_varmap: &SymbolTable) -> (res: Result<
    Callee,
    ParseError,
>)
    ensures
        match callee_of(*tok, varmap@, local_varmap@) {
            Ok(c) => res == Ok::<Callee, ParseError>(c),
            Err(e) => res is Err && res->Err_0@ == e,
        },
{
    match &tok.tt {
        TokenType::Particle(c) => match operator(*c) {
            Some(op) => Ok(Callee::Primitive(op)),
            None => Err(
                ParseET::ParseError("one of + - * / & |".to_owned(), tok.tt.describe()).at(
                    tok.loc.clone(),
                ),
            ),
        },
        TokenType::Ident(name) => match get_var(name.as_str(), varmap, local_varmap) {
            Ok((ty, value)) => Ok(Callee::Function(ty, value)),
            Err(e) => Err(e.at(tok.loc.clone())),
        },
        TokenType::Literal(_) => Err(
            ParseET::ParseError("[<function>|<operator>]".to_owned(), tok.tt.describe()).at(
                tok.loc.clone(),
            ),
        ),
    }
}

/// The instruction for a call of `callee` with `args`.
pub fn build_call(callee: Callee, args: Vec<Value>, ret_name: &str, at: &Token) -> (res: Result<
    Inst,
    ParseError,
>)
    ensures
        match call_inst(callee, args@, ret_name@, *at) {
            Ok(inst) => res is Ok && res->Ok_0@ == inst,
            Err(e) => res is Err && res->Err_0@ == e,
        },
{
    match callee {
        Callee::Primitive(op) => {
            let n = args.len();
            if n >= 2 {
                Ok(Inst::Binary { op, lhs: args[n - 2], rhs: args[n - 1], name: ret_name.to_owned() })
            } else {
                let mut found = String::new();
                push_decimal(&mut found, n as u64);
                assert(found@ =~= crate::text::decimal(n as nat));
                Err(ParseET::ParseError("two operands".to_owned(), found).at(at.loc.clone()))
            }
        },
        Callee::Function(ty, value) => Ok(
            Inst::Call { ty, callee: value, args, name: ret_name.to_owned() },
        ),
    }
}

/// Whether a construct was read as the grammar says: on success the value
/// it yields, the cursor behind it and the module with what it emitted; on
/// failure the failure, the cursor where it rests and the module with what
/// was emitted before.
pub open spec fn reads<T>(
    res: Result<T, ParseError>,
    tokens: TokIter,
    module: Module,
    want: Parsed<T>,
) -> bool {
    match want {
        Ok(e) => res == Ok::<T, ParseError>(e.value) && tokens.index == e.pos && module@
            == e.module,
        Err(s) => res is Err && res->Err_0@ == s.error && tokens.index == s.pos && module@
            == s.module,
    }
}

/// Reads a literal: its type, then its value.
pub fn compile_literal(tokens: &mut TokIter, module: &mut Module) -> (res: Result<
    Value,
    ParseError,
>)
    ensures
        final(tokens).vec == old(tokens).vec,
        reads(
            res,
            *final(tokens),
            *final(module),
            literal_at(old(tokens).vec@, old(tokens).index as int, old(module)@),
        ),
        res is Ok ==> old(tokens).index < final(tokens).index <= old(tokens).vec.len(),
        forall|f: int| old(module)@.building(f) ==> final(module)@.building(f),
{
    let name = match ident_next(tokens, "type") {
        Ok(name) => name,
        Err(e) => return Err(e.when("compiling literal")),
    };
    let ty = match ty_str_to_ty(name.as_str()) {
        Ok(ty) => ty,
        Err(e) => return Err(e.when("compiling literal")),
    };
    let tok = match tokens.this() {
        Ok(tok) => tok,
        Err(e) => return Err(e.when("compiling literal")),
    };
    assert(tokens.index < tokens.vec.len());
    match tok.tt {
        TokenType::Literal(lit) => match lit {
            Literal::String(s) => {
                tokens.next();
                Ok(module.add_string(s, "".to_owned()))
            },
            Literal::Number(NumLit::Integer(i)) => {
                tokens.next();
                Ok(Value::ConstInt(ty, i))
            },
            Literal::Bool(b) => {
                tokens.next();
                Ok(
                    Value::ConstInt(
                        PrimTy::I1,
                        if b {
                            1
                        } else {
                            0
                        },
                    ),
                )
            },
            other => Err(
                ParseET::ParseLiteralError(
                    other,
                    "no code is defined for this kind of literal".to_owned(),
                ).at(tok.loc).when("compiling literal"),
            ),
        },
        tt => Err(
            ParseET::ParseError("literal".to_owned(), tt.describe()).at(tok.loc).when(
                "compiling literal",
            ),
        ),
    }
}

/// Whether the word `word` stands under the cursor.
fn at_word(tokens: &TokIter, word: &str) -> (res: bool)
    ensures
        res == (tokens.index < tokens.vec@.len() && tokens.vec@[tokens.index as int].tt is Ident
            && tokens.vec@[tokens.index as int].tt->Ident_0@ == word@),
{
    if tokens.index < tokens.vec.len() {
        match &tokens.vec[tokens.index].tt {
            TokenType::Ident(name) => same_text(name.as_str(), word),
            _ => false,
        }
    } else {
        false
    }
}

/// Arguments behind those already read.
pub open spec fn args_after(done: Seq<Value>, rest: Parsed<Seq<Value>>) -> Parsed<Seq<Value>> {
    match rest {
        Err(e) => Err(e),
        Ok(r) => Ok(Emitted { value: done + r.value, pos: r.pos, module: r.module }),
    }
}

/// Reads an expression and emits what computes it. `ret_name` labels the
/// value if an instruction produces it.
pub fn compile_expression(
    tokens: &mut TokIter,
    module: &mut Module,
    builder: usize,
    varmap: &SymbolTable,
    local_varmap: &SymbolTable,
    ret_name: &str,
) -> (res: Result<Value, ParseError>)
    requires
        old(module)@.building(builder as int),
    ensures
        final(tokens).vec == old(tokens).vec,
        reads(
            res,
            *final(tokens),
            *final(module),
            expression_at(
                old(tokens).vec@,
                old(tokens).index as int,
                old(module)@,
                builder as int,
                varmap@,
                local_varmap@,
                ret_name@,
            ),
        ),
        res is Ok ==> old(tokens).index < final(tokens).index <= old(tokens).vec.len(),
        forall|f: int| old(module)@.building(f) ==> final(module)@.building(f),
    decreases old(tokens).vec.len() - old(tokens).index, 0nat,
{
    let word = match ident_next(tokens, "[call|literal|<variable>]") {
        Ok(word) => word,
        Err(e) => return Err(e),
    };
    assert(tokens.index <= tokens.vec.len());
    if same_text(word.as_str(), "call") {
        compile_fn_call(tokens, module, builder, varmap, local_varmap, ret_name)
    } else if same_text(word.as_str(), "literal") {
        compile_literal(tokens, module)
    } else {
        match get_var(word.as_str(), varmap, local_varmap) {
            Ok((_, value)) => Ok(value),
            Err(e) => Err(e.at(tokens.vec[tokens.index - 1].loc.clone())),
        }
    }
}

/// Reads a call behind its keyword, emits its arguments and then the call
/// itself.
pub fn compile_fn_call(
    tokens: &mut TokIter,
    module: &mut Module,
    builder: usize,
    varmap: &SymbolTable,
    local_varmap: &SymbolTable,
    ret_name: &str,
) -> (res: Result<Value, ParseError>)
    requires
        old(module)@.building(builder as int),
    ensures
        final(tokens).vec == old(tokens).vec,
        reads(
            res,
            *final(tokens),
            *final(module),
            call_at(
                old(tokens).vec@,
                old(tokens).index as int,
                old(module)@,
                builder as int,
                varmap@,
                local_varmap@,
                ret_name@,
            ),
        ),
        res is Ok ==> old(tokens).index < final(tokens).index <= old(tokens).vec.len(),
        forall|f: int| old(module)@.building(f) ==> final(module)@.building(f),
    decreases old(tokens).vec.len() - old(tokens).index, 0nat,
{
    let tok = match tokens.this() {
        Ok(tok) => tok,
        Err(e) => return Err(e.when("compiling function call")),
    };
    assert(tokens.index < tokens.vec.len());
    let target = match callee(&tok, varmap, local_varmap) {
        Ok(target) => target,
        Err(e) => return Err(e.when("compiling function call")),
    };
    tokens.next();
    let args = if at_word(tokens, "with") {
        tokens.next();
        match compile_args(tokens, module, builder, varmap, local_varmap) {
            Ok(args) => args,
            Err(e) => return Err(e.when("compiling function call")),
        }
    } else {
        Vec::new()
    };
    let inst = match build_call(target, args, ret_name, &tok) {
        Ok(inst) => inst,
        Err(e) => return Err(e.when("compiling function call")),
    };
    Ok(module.emit(builder, inst))
}

/// Reads the arguments of a call up to and with the closing `end`, and
/// emits what computes them.
pub fn compile_args(
    tokens: &mut TokIter,
    module: &mut Module,
    builder: usize,
    varmap: &SymbolTable,
    local_varmap: &SymbolTable,
) -> (res: Result<Vec<Value>, ParseError>)
    requires
        old(module)@.building(builder as int),
    ensures
        final(tokens).vec == old(tokens).vec,
        match args_at(
            old(tokens).vec@,
            old(tokens).index as int,
            old(module)@,
            builder as int,
            varmap@,
            local_varmap@,
        ) {
            Ok(a) => res is Ok && res->Ok_0@ == a.value && final(tokens).index == a.pos
                && final(module)@ == a.module,
            Err(s) => res is Err && res->Err_0@ == s.error && final(tokens).index == s.pos
                && final(module)@ == s.module,
        },
        res is Ok ==> old(tokens).index < final(tokens).index <= old(tokens).vec.len(),
        forall|f: int| old(module)@.building(f) ==> final(module)@.building(f),
    decreases old(tokens).vec.len() - old(tokens).index, 1nat,
{
    let mut args: Vec<Value> = Vec::new();
    loop
        invariant
            tokens.vec == old(tokens).vec,
            old(tokens).index <= tokens.index,
            module@.building(builder as int),
            forall|f: int| old(module)@.building(f) ==> module@.building(f),
            args_at(
                old(tokens).vec@,
                old(tokens).index as int,
                old(module)@,
                builder as int,
                varmap@,
                local_varmap@,
            ) == args_after(
                args@,
                args_at(
                    tokens.vec@,
                    tokens.index as int,
                    module@,
                    builder as int,
                    varmap@,
                    local_varmap@,
                ),
            ),
        decreases tokens.vec.len() - tokens.index,
    {
        let ghost before = tokens.index as int;
        let ghost m = module@;
        let word = match ident_next(tokens, "[<arg>|end]") {
            Ok(word) => word,
            Err(e) => return Err(e),
        };
        assert(tokens.index <= tokens.vec.len());
        if same_text(word.as_str(), "end") {
            assert(args@ + Seq::<Value>::empty() =~= args@);
            return Ok(args);
        }
        tokens.index -= 1;
        let v = match compile_expression(tokens, module, builder, varmap, local_varmap, "") {
            Ok(v) => v,
            Err(e) => return Err(e),
        };
        proof {
            let rest = args_at(
                tokens.vec@,
                tokens.index as int,
                module@,
                builder as int,
                varmap@,
                local_varmap@,
            );
            if let Ok(r) = rest {
                assert(args@.push(v) + r.value =~= args@ + (seq![v] + r.value));
            }
        }
        args.push(v);
    }
}

/// Whether a statement was read as the grammar says: on success the
/// cursor stands behind it, the module holds what it emitted and the table
/// holds the locals it leaves; on failure the failure, the cursor where it
/// rests and the module with what was emitted before.
pub open spec fn runs(
    res: Result<(), ParseError>,
    tokens: TokIter,
    module: Module,
    table: SymbolTable,
    want: Parsed<Bindings>,
) -> bool {
    match want {
        Ok(e) => res is Ok && tokens.index == e.pos && module@ == e.module && table@ == e.value,
        Err(s) => res is Err && res->Err_0@ == s.error && tokens.index == s.pos && module@
            == s.module,
    }
}

/// Whether a declaration was read as the grammar says: on success the
/// cursor stands behind it, the module holds what it emitted and the table
/// holds the globals it leaves; on failure the failure, the cursor where
/// it rests, and module and table with what was emitted and bound before.
pub open spec fn declares(
    res: Result<(), ParseError>,
    tokens: TokIter,
    module: Module,
    table: SymbolTable,
    want: Declared,
) -> bool {
    match want {
        Ok(e) => res is Ok && tokens.index == e.pos && module@ == e.module && table@ == e.value,
        Err(h) => res is Err && res->Err_0@ == h.error && tokens.index == h.pos && module@
            == h.module && table@ == h.globals,
    }
}

/// Reads a `let` statement behind its keyword and binds its name among the
/// locals to the value of its expression.
pub fn compile_let_assign(
    tokens: &mut TokIter,
    module: &mut Module,
    builder: usize,
    varmap: &SymbolTable,
    local_varmap: &mut SymbolTable,
) -> (res: Result<(), ParseError>)
    requires
        old(module)@.building(builder as int),
    ensures
        final(tokens).vec == old(tokens).vec,
        runs(
            res,
            *final(tokens),
            *final(module),
            *final(local_varmap),
            let_at(
                old(tokens).vec@,
                old(tokens).index as int,
                old(module)@,
                builder as int,
                varmap@,
                old(local_varmap)@,
            ),
        ),
        res is Ok ==> old(tokens).index < final(tokens).index <= old(tokens).vec.len(),
        res is Err ==> final(local_varmap)@ == old(local_varmap)@,
        forall|f: int| old(module)@.building(f) ==> final(module)@.building(f),
{
    let tyname = match ident_next(tokens, "type") {
        Ok(tyname) => tyname,
        Err(e) => return Err(e.when("compiling let statement")),
    };
    let ty = match ty_str_to_ty(tyname.as_str()) {
        Ok(ty) => ty,
        Err(e) => return Err(e.when("compiling let statement")),
    };
    let name = match ident_next(tokens, "name") {
        Ok(name) => name,
        Err(e) => return Err(e.when("compiling let statement")),
    };
    match expect_ident(tokens, "be") {
        Ok(_) => {},
        Err(e) => return Err(e.when("compiling let statement")),
    }
    let v = match compile_expression(tokens, module, builder, varmap, local_varmap, name.as_str()) {
        Ok(v) => v,
        Err(e) => return Err(e.when("compiling let statement")),
    };
    local_varmap.define(name, Ty::Prim(ty), v);
    Ok(())
}

/// Reads a `return` statement behind its keyword and emits the return.
pub fn compile_return(
    tokens: &mut TokIter,
    module: &mut Module,
    builder: usize,
    varmap: &SymbolTable,
    local_varmap: &SymbolTable,
) -> (res: Result<(), ParseError>)
    requires
        old(module)@.building(builder as int),
    ensures
        final(tokens).vec == old(tokens).vec,
        reads(
            res,
            *final(tokens),
            *final(module),
            return_at(
                old(tokens).vec@,
                old(tokens).index as int,
                old(module)@,
                builder as int,
                varmap@,
                local_varmap@,
            ),
        ),
        res is Ok ==> old(tokens).index < final(tokens).index <= old(tokens).vec.len(),
        forall|f: int| old(module)@.building(f) ==> final(module)@.building(f),
{
    let word = match ident_next(tokens, "[end|<var>]") {
        Ok(word) => word,
        Err(e) => return Err(e.when("compiling return statement")),
    };
    assert(tokens.index <= tokens.vec.len());
    if same_text(word.as_str(), "end") {
        module.emit(builder, Inst::Ret(None));
    } else {
        tokens.index -= 1;
        let v = match compile_expression(tokens, module, builder, varmap, local_varmap, "") {
            Ok(v) => v,
            Err(e) => return Err(e.when("compiling return statement")),
        };
        module.emit(builder, Inst::Ret(Some(v)));
    }
    Ok(())
}

/// Reads one statement of a function body and emits it.
pub fn compile_statement(
    tokens: &mut TokIter,
    module: &mut Module,
    builder: usize,
    varmap: &SymbolTable,
    local_varmap: &mut SymbolTable,
) -> (res: Result<(), ParseError>)
    requires
        old(module)@.building(builder as int),
    ensures
        final(tokens).vec == old(tokens).vec,
        runs(
            res,
            *final(tokens),
            *final(module),
            *final(local_varmap),
            statement_at(
                old(tokens).vec@,
                old(tokens).index as int,
                old(module)@,
                builder as int,
                varmap@,
                old(local_varmap)@,
            ),
        ),
        res is Ok ==> old(tokens).index < final(tokens).index <= old(tokens).vec.len(),
        res is Err ==> final(local_varmap)@ == old(local_varmap)@,
        forall|f: int| old(module)@.building(f) ==> final(module)@.building(f),
{
    let word = match ident_next(tokens, "[let|<expr>]") {
        Ok(word) => word,
        Err(e) => return Err(e),
    };
    assert(tokens.index <= tokens.vec.len());
    if same_text(word.as_str(), "let") {
        compile_let_assign(tokens, module, builder, varmap, local_varmap)
    } else if same_text(word.as_str(), "return") {
        compile_return(tokens, module, builder, varmap, local_varmap)
    } else {
        tokens.index -= 1;
        match compile_expression(tokens, module, builder, varmap, local_varmap, "") {
            Ok(_) => Ok(()),
            Err(e) => Err(e),
        }
    }
}

/// A failure among the first parameter types is the failure of the whole
/// list.
proof fn lemma_param_types_fail(params: Seq<(String, String)>, k: int)
    requires
        0 <= k <= params.len(),
        param_types(params.take(k)) is Err,
    ensures
        param_types(params) == param_types(params.take(k)),
    decreases params.len() - k,
{
    if k < params.len() {
        assert(params.take(k + 1).drop_last() =~= params.take(k));
        lemma_param_types_fail(params, k + 1);
    } else {
        assert(params.take(k) =~= params);
    }
}

/// The types of the parameters of a header.
fn signature_types(params: &Vec<(String, String)>) -> (res: Result<Vec<PrimTy>, ParseError>)
    ensures
        match param_types(params@) {
            Ok(types) => res is Ok && res->Ok_0@ == types,
            Err(e) => res is Err && res->Err_0@ == e,
        },
        res is Ok ==> res->Ok_0@.len() == params@.len(),
{
    let mut types: Vec<PrimTy> = Vec::new();
    let mut i: usize = 0;
    while i < params.len()
        invariant
            i <= params@.len(),
            types@.len() == i,
            param_types(params@.take(i as int)) == Ok::<Seq<PrimTy>, crate::source::ParseErrorView>(
                types@,
            ),
        decreases params@.len() - i,
    {
        proof {
            assert(params@.take(i + 1).drop_last() =~= params@.take(i as int));
        }
        match ty_str_to_ty(params[i].0.as_str()) {
            Ok(ty) => types.push(ty),
            Err(e) => {
                proof {
                    lemma_param_types_fail(params@, i + 1);
                }
                return Err(e);
            },
        }
        i += 1;
    }
    assert(params@.take(i as int) =~= params@);
    Ok(types)
}

/// The return type of a header.
fn signature_return(ret: &Option<String>) -> (res: Result<PrimTy, ParseError>)
    ensures
        match return_type(*ret) {
            Ok(t) => res == Ok::<PrimTy, ParseError>(t),
            Err(e) => res is Err && res->Err_0@ == e,
        },
{
    match ret {
        Some(name) => ty_str_to_ty(name.as_str()),
        None => Ok(PrimTy::Void),
    }
}

/// A table with each parameter name bound to the argument in its
/// position.
fn bind_params(params: &Vec<(String, String)>, types: &Vec<PrimTy>, func: usize) -> (res:
    SymbolTable)
    requires
        types@.len() == params@.len(),
    ensures
        res@ == param_bindings(params@, types@, func as int),
{
    let mut locals = SymbolTable::new();
    let mut i: usize = 0;
    while i < params.len()
        invariant
            i <= params@.len(),
            types@.len() == params@.len(),
            locals@ == param_bindings(params@.take(i as int), types@, func as int),
        decreases params@.len() - i,
    {
        proof {
            assert(params@.take(i + 1).drop_last() =~= params@.take(i as int));
        }
        locals.define(params[i].1.clone(), Ty::Prim(types[i]), Value::Param(func, i));
        i += 1;
    }
    assert(params@.take(i as int) =~= params@);
    locals
}

/// Whether a token is the word `end`.
fn ends_body(tok: &Token) -> (res: bool)
    ensures
        res == is_end(*tok),
{
    match &tok.tt {
        TokenType::Ident(name) => same_text(name.as_str(), "end"),
        _ => false,
    }
}

/// Reads a function definition and emits it: the function is bound among
/// the globals before its body is read, the body sees the parameters as
/// locals, and the locals are gone when it ends.
#[verifier::loop_isolation(false)]
pub fn compile_fn(tokens: &mut TokIter, module: &mut Module, varmap: &mut SymbolTable) -> (res:
    Result<(), ParseError>)
    ensures
        final(tokens).vec == old(tokens).vec,
        declares(
            res,
            *final(tokens),
            *final(module),
            *final(varmap),
            function_at(old(tokens).vec@, old(tokens).index as int, old(module)@, old(varmap)@),
        ),
        res is Ok ==> old(tokens).index < final(tokens).index <= old(tokens).vec.len(),
        forall|f: int| old(module)@.building(f) ==> final(module)@.building(f),
{
    let (name, ty, args, vararg) = match fn_sig(tokens) {
        Ok(sig) => sig,
        Err(e) => return Err(e.when("compiling function signature")),
    };
    let ret = match signature_return(&ty) {
        Ok(ret) => ret,
        Err(e) => return Err(e.when("compiling function signature")),
    };
    let types = match signature_types(&args) {
        Ok(types) => types,
        Err(e) => return Err(e.when("compiling function signature")),
    };
    let function = module.functions.len();
    let mut local_varmap = bind_params(&args, &types, function);
    module.add_function(name.clone(), ret, types, vararg, true);
    varmap.define(name, Ty::Signature(function), Value::Function(function));
    let ghost start = tokens.index as int;
    let ghost declared = module@;
    let ghost locals = local_varmap@;
    let mut open = true;
    while open
        invariant
            tokens.vec == old(tokens).vec,
            old(tokens).index < start <= tokens.index,
            module@.building(function as int),
            forall|f: int| old(module)@.building(f) ==> module@.building(f),
            !open ==> tokens.index < tokens.vec.len() && is_end(tokens.vec@[tokens.index as int]),
            body_at(tokens.vec@, start, declared, function as int, varmap@, locals) == body_at(
                tokens.vec@,
                tokens.index as int,
                module@,
                function as int,
                varmap@,
                local_varmap@,
            ),
        decreases
                tokens.vec.len() - tokens.index,
                if open {
                    1nat
                } else {
                    0nat
                },
    {
        let tok = match tokens.this() {
            Ok(tok) => tok,
            Err(e) => return Err(e.when("compiling function body")),
        };
        assert(tokens.index < tokens.vec.len());
        if ends_body(&tok) {
            open = false;
        } else {
            match compile_statement(tokens, module, function, varmap, &mut local_varmap) {
                Ok(_) => {},
                Err(e) => return Err(e.when("compiling function body")),
            }
        }
    }
    if ty.is_none() && !module.is_terminated(function) {
        module.emit(function, Inst::Ret(None));
    }
    tokens.next();
    Ok(())
}

/// Reads the declaration of an outside function and binds its name among
/// the globals.
pub fn compile_extern(tokens: &mut TokIter, module: &mut Module, varmap: &mut SymbolTable) -> (res:
    Result<(), ParseError>)
    ensures
        final(tokens).vec == old(tokens).vec,
        declares(
            res,
            *final(tokens),
            *final(module),
            *final(varmap),
            extern_at(old(tokens).vec@, old(tokens).index as int, old(module)@, old(varmap)@),
        ),
        res is Ok ==> old(tokens).index < final(tokens).index <= old(tokens).vec.len(),
        forall|f: int| old(module)@.building(f) ==> final(module)@.building(f),
{
    match expect_ident(tokens, "extern") {
        Ok(_) => {},
        Err(e) => return Err(e.when("compiling extern function")),
    }
    let (name, ty, args, vararg) = match fn_sig(tokens) {
        Ok(sig) => sig,
        Err(e) => return Err(e.when("compiling extern function")),
    };
    let ret = match signature_return(&ty) {
        Ok(ret) => ret,
        Err(e) => return Err(e.when("compiling extern function")),
    };
    let types = match signature_types(&args) {
        Ok(types) => types,
        Err(e) => return Err(e.when("compiling extern function")),
    };
    let function = module.add_function(name.clone(), ret, types, vararg, false);
    varmap.define(name, Ty::Signature(function), Value::Function(function));
    Ok(())
}

/// Reads a constant and binds its name among the globals to a string
/// constant of the module.
pub fn compile_global_const(
    tokens: &mut TokIter,
    module: &mut Module,
    varmap: &mut SymbolTable,
) -> (res: Result<(), ParseError>)
    ensures
        final(tokens).vec == old(tokens).vec,
        declares(
            res,
            *final(tokens),
            *final(module),
            *final(varmap),
            global_const_at(old(tokens).vec@, old(tokens).index as int, old(module)@, old(varmap)@),
        ),
        res is Ok ==> old(tokens).index < final(tokens).index <= old(tokens).vec.len(),
        forall|f: int| old(module)@.building(f) ==> final(module)@.building(f),
{
    match expect_ident(tokens, "const") {
        Ok(_) => {},
        Err(e) => return Err(e.when("compiling global constant")),
    }
    match ident_next(tokens, "type") {
        Ok(_) => {},
        Err(e) => return Err(e.when("compiling global constant")),
    }
    let name = match ident_next(tokens, "name") {
        Ok(name) => name,
        Err(e) => return Err(e.when("compiling global constant")),
    };
    match expect_ident(tokens, "is") {
        Ok(_) => {},
        Err(e) => return Err(e.when("compiling global constant")),
    }
    let tok = match tokens.this() {
        Ok(tok) => tok,
        Err(e) => return Err(e.when("compiling global constant")),
    };
    assert(tokens.index < tokens.vec.len());
    let val = match tok.tt {
        TokenType::Literal(Literal::String(s)) => s,
        TokenType::Literal(lit) => {
            return Err(
                ParseET::ParseError(
                    "string literal [only literal type supported]".to_owned(),
                    lit.describe(),
                ).at(tok.loc).when("compiling global constant"),
            );
        },
        tt => {
            return Err(
                ParseET::ParseError("literal".to_owned(), tt.describe()).at(tok.loc).when(
                    "compiling global constant",
                ),
            );
        },
    };
    tokens.next();
    let p = module.add_string(val, name.clone());
    varmap.define(name, Ty::Prim(PrimTy::Ptr), p);
    Ok(())
}

/// Reads one declaration, which its first word tells.
pub fn compile_declaration(
    tokens: &mut TokIter,
    module: &mut Module,
    varmap: &mut SymbolTable,
) -> (res: Result<(), ParseError>)
    ensures
        final(tokens).vec == old(tokens).vec,
        declares(
            res,
            *final(tokens),
            *final(module),
            *final(varmap),
            declaration_at(old(tokens).vec@, old(tokens).index as int, old(module)@, old(varmap)@),
        ),
        res is Ok ==> old(tokens).index < final(tokens).index <= old(tokens).vec.len(),
        forall|f: int| old(module)@.building(f) ==> final(module)@.building(f),
{
    let tok = match tokens.this() {
        Ok(tok) => tok,
        Err(e) => return Err(e),
    };
    match tok.tt {
        TokenType::Ident(word) => {
            if same_text(word.as_str(), "const") {
                compile_global_const(tokens, module, varmap)
            } else if same_text(word.as_str(), "extern") {
                compile_extern(tokens, module, varmap)
            } else if same_text(word.as_str(), "fn") {
                compile_fn(tokens, module, varmap)
            } else {
                Err(ParseET::ParseError("[const|extern|fn]".to_owned(), word).at(tok.loc))
            }
        },
        tt => Err(ParseET::ParseError("keyword".to_owned(), tt.describe()).at(tok.loc)),
    }
}

/// Compiles a unit: reads declarations from the cursor to the end of the
/// tokens and hands out the module they make, with an entry routine that
/// calls the function bound to `main`. In that module each instruction
/// names only what stands before it.
pub fn compile(tokens: TokIter, name: &str) -> (res: Result<Module, ParseError>)
    ensures
        match unit_module(tokens.vec@, tokens.index as int, name@) {
            Ok(m) => res is Ok && res->Ok_0@ == m,
            Err(e) => res is Err && res->Err_0@ == e,
        },
        res is Ok ==> well_scoped(res->Ok_0@),
{
    let mut cursor = tokens;
    let mut module = Module::new(name);
    module.add_function("main".to_owned(), PrimTy::Void, Vec::new(), false, true);
    let mut varmap = SymbolTable::new();
    while cursor.index < cursor.vec.len()
        invariant
            cursor.vec == tokens.vec,
            module@.building(0),
            unit_at(
                tokens.vec@,
                tokens.index as int,
                unit_start(name@),
                Map::<Seq<char>, crate::symbols::Binding>::empty(),
            ) == unit_at(tokens.vec@, cursor.index as int, module@, varmap@),
        decreases cursor.vec.len() - cursor.index,
    {
        match compile_declaration(&mut cursor, &mut module, &mut varmap) {
            Ok(_) => {},
            Err(e) => return Err(e),
        }
    }
    match varmap.get("main") {
        Some((ty, callee)) => {
            module.emit(0, Inst::Call { ty, callee, args: Vec::new(), name: "".to_owned() });
            module.emit(0, Inst::Ret(None));
            proof {
                lemma_modules_fit(module);
                lemma_module_well_scoped(tokens.vec@, tokens.index as int, name@);
            }
            Ok(module)
        },
        None => Err(ParseET::VariableError("main".to_owned()).error()),
    }
}

} // verus!
