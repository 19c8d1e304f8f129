//! The grammar of the language and what each construct emits, as
//! functions of the token sequence and the position in it.

use vstd::prelude::*;
use crate::ir::{BinOp, FunctionView, InstView, ModuleView, PrimTy, Ty, Value};
use crate::source::{ParseETView, ParseErrorView};
use crate::symbols::{resolve, unresolved, Bindings};
use crate::text::decimal;
use crate::tokens::tok_iter::token_at;
use crate::tokens::tokens::{Literal, NumLit, Token, TokenType};

verus! {

/// The failure for a token that is not what the grammar asks for.
pub open spec fn mismatch(expected: Seq<char>, tok: Token) -> ParseErrorView {
    ParseETView::ParseError(expected, tok.tt.description()).at(tok.loc)
}

/// The name at `pos`, where the grammar asks for a name.
pub open spec fn ident_at(ts: Seq<Token>, pos: int, expected: Seq<char>) -> Result<
    String,
    ParseErrorView,
> {
    match token_at(ts, pos, pos) {
        Err(e) => Err(e),
        Ok(tok) => match tok.tt {
            TokenType::Ident(name) => Ok(name),
            _ => Err(mismatch(expected, tok)),
        },
    }
}

/// Whether the token at `pos` is the keyword `word`, and the failure if not.
pub open spec fn keyword_at(ts: Seq<Token>, pos: int, word: Seq<char>) -> Result<
    (),
    ParseErrorView,
> {
    match token_at(ts, pos, pos) {
        Err(e) => Err(e),
        Ok(tok) => match tok.tt {
            TokenType::Ident(name) => if name@ == word {
                Ok(())
            } else {
                Err(ParseETView::ParseError(word, name@).at(tok.loc))
            },
            _ => Err(mismatch(word, tok)),
        },
    }
}

/// Whether a name is one of the two words that close a function header.
pub open spec fn closes_header(word: Seq<char>) -> bool {
    word == "do"@ || word == "end"@
}

/// What a function header declares: the name, the return type if one is
/// written, the parameters as pairs of type and name, and whether further
/// arguments may follow them.
pub struct FnSig {
    pub name: String,
    pub ret: Option<String>,
    pub params: Seq<(String, String)>,
    pub vararg: bool,
}

/// A failure of reading a header, and the token on which the cursor
/// rests after it: the one that was not accepted, or the place behind the
/// last token where one is missing.
pub struct Refused {
    pub error: ParseErrorView,
    pub pos: int,
}

/// A parameter list and the position after the word that closes it.
pub type ParamsAt = Result<(Seq<(String, String)>, int), Refused>;

/// A header and the position after it.
pub type SigAt = Result<(FnSig, int), Refused>;

/// The parameter list that starts at `pos`: pairs of type and name up to
/// the first `do` or `end` that stands where a type could.
pub open spec fn params_at(ts: Seq<Token>, pos: int, first: bool) -> ParamsAt
    decreases ts.len() - pos,
{
    let expected = if first {
        "[with|do|end|<type>]"@
    } else {
        "[do|end]"@
    };
    match ident_at(ts, pos, expected) {
        Err(e) => Err(Refused { error: e, pos }),
        Ok(ty) => if closes_header(ty@) {
            Ok((Seq::empty(), pos + 1))
        } else {
            match ident_at(ts, pos + 1, "name"@) {
                Err(e) => Err(Refused { error: e, pos: pos + 1 }),
                Ok(name) => match params_at(ts, pos + 2, false) {
                    Err(e) => Err(e),
                    Ok((rest, end)) => Ok((seq![(ty, name)] + rest, end)),
                },
            }
        },
    }
}

/// A parameter list behind the pairs already read.
pub open spec fn params_after(done: Seq<(String, String)>, rest: ParamsAt) -> ParamsAt {
    match rest {
        Err(e) => Err(e),
        Ok((more, end)) => Ok((done + more, end)),
    }
}

/// The header that starts at `pos`, and the position after it.
pub open spec fn fn_sig_at(ts: Seq<Token>, pos: int) -> SigAt {
    match keyword_at(ts, pos, "fn"@) {
        Err(e) => Err(Refused { error: e, pos }),
        Ok(_) => match ident_at(ts, pos + 1, "name"@) {
            Err(e) => Err(Refused { error: e, pos: pos + 1 }),
            Ok(name) => match ident_at(ts, pos + 2, "[with|do|end|<type>]"@) {
                Err(e) => Err(Refused { error: e, pos: pos + 2 }),
                Ok(n) => if closes_header(n@) {
                    Ok((FnSig { name, ret: None, params: Seq::empty(), vararg: false }, pos + 3))
                } else if n@ == "with"@ {
                    with_clause_at(ts, pos + 3, name, None)
                } else {
                    match ident_at(ts, pos + 3, "[with|do|end]"@) {
                        Err(e) => Err(Refused { error: e, pos: pos + 3 }),
                        Ok(n2) => if closes_header(n2@) {
                            Ok(
                                (
                                    FnSig {
                                        name,
                                        ret: Some(n),
                                        params: Seq::empty(),
                                        vararg: false,
                                    },
                                    pos + 4,
                                ),
                            )
                        } else if n2@ == "with"@ {
                            with_clause_at(ts, pos + 4, name, Some(n))
                        } else {
                            Err(
                                Refused {
                                    error: ParseETView::ParseError("[with|do|end]"@, n2@).at(
                                        ts[pos + 3].loc,
                                    ),
                                    pos: pos + 3,
                                },
                            )
                        },
                    }
                },
            },
        },
    }
}

/// The rest of a header behind `with`: the mark for further arguments, if
/// it is there, and the parameters.
pub open spec fn with_clause_at(ts: Seq<Token>, pos: int, name: String, ret: Option<String>) -> SigAt {
    match ident_at(ts, pos, "<vararg?>"@) {
        Err(e) => Err(Refused { error: e, pos }),
        Ok(word) => {
            let vararg = word@ == "vararg"@;
            let from = if vararg {
                pos + 1
            } else {
                pos
            };
            match params_at(ts, from, true) {
                Err(e) => Err(e),
                Ok((params, end)) => Ok((FnSig { name, ret, params, vararg }, end)),
            }
        },
    }
}

/// The primitive type that a type name stands for.
pub open spec fn prim_type(name: Seq<char>) -> Option<PrimTy> {
    if name == "void"@ {
        Some(PrimTy::Void)
    } else if name == "ptr"@ {
        Some(PrimTy::Ptr)
    } else if name == "i8"@ {
        Some(PrimTy::I8)
    } else if name == "i32"@ {
        Some(PrimTy::I32)
    } else if name == "i64"@ {
        Some(PrimTy::I64)
    } else if name == "i128"@ {
        Some(PrimTy::I128)
    } else {
        None
    }
}

/// The primitive type that a type name stands for, or the failure for a
/// name that is none.
pub open spec fn type_named(name: Seq<char>) -> Result<PrimTy, ParseErrorView> {
    match prim_type(name) {
        Some(ty) => Ok(ty),
        None => Err(ParseETView::ParseError("valid type"@, name).error()),
    }
}

/// The return type of a header: the one written, or `void`.
pub open spec fn return_type(ret: Option<String>) -> Result<PrimTy, ParseErrorView> {
    match ret {
        Some(name) => type_named(name@),
        None => Ok(PrimTy::Void),
    }
}

/// The types of the parameters of a header, or the failure for the first
/// that is no type.
pub open spec fn param_types(params: Seq<(String, String)>) -> Result<Seq<PrimTy>, ParseErrorView>
    decreases params.len(),
{
    if params.len() == 0 {
        Ok(Seq::empty())
    } else {
        match param_types(params.drop_last()) {
            Err(e) => Err(e),
            Ok(types) => match type_named(params.last().0@) {
                Err(e) => Err(e),
                Ok(ty) => Ok(types.push(ty)),
            },
        }
    }
}

/// The local bindings a function body starts with: each parameter name
/// bound to the argument in its position, a later parameter hiding an
/// earlier one of the same name.
pub open spec fn param_bindings(params: Seq<(String, String)>, types: Seq<PrimTy>, func: int) -> Bindings
    decreases params.len(),
{
    if params.len() == 0 {
        Map::empty()
    } else {
        let i = params.len() - 1;
        param_bindings(params.drop_last(), types, func).insert(
            params[i].1@,
            (Ty::Prim(types[i]), Value::Param(func as usize, i as usize)),
        )
    }
}

/// The primitive that an operator symbol stands for.
pub open spec fn binary_op(c: char) -> Option<BinOp> {
    if c == '+' {
        Some(BinOp::Add)
    } else if c == '-' {
        Some(BinOp::Sub)
    } else if c == '*' {
        Some(BinOp::Mul)
    } else if c == '/' {
        Some(BinOp::SDiv)
    } else if c == '&' {
        Some(BinOp::And)
    } else if c == '|' {
        Some(BinOp::Or)
    } else {
        None
    }
}

/// Where a construct ended and what the module holds after it, with what
/// the construct yields.
pub struct Emitted<T> {
    pub value: T,
    pub pos: int,
    pub module: ModuleView,
}

/// A failure within a function body, with the state it leaves: where the
/// cursor rests, and the module with what was emitted before the failure.
pub struct Stopped {
    pub error: ParseErrorView,
    pub pos: int,
    pub module: ModuleView,
}

/// What a successful parse of a construct gives, or the first failure.
pub type Parsed<T> = Result<Emitted<T>, Stopped>;

/// A failure of a declaration, with the state it leaves: where the cursor
/// rests, the module with what was emitted before the failure, and the
/// globals with what was bound before it.
pub struct Halted {
    pub error: ParseErrorView,
    pub pos: int,
    pub module: ModuleView,
    pub globals: Bindings,
}

/// What a declaration that was read gives, with the globals after it, or
/// the first failure.
pub type Declared = Result<Emitted<Bindings>, Halted>;

/// The failure `error` with the cursor at `pos` and the module as `m`.
pub open spec fn stop<T>(error: ParseErrorView, pos: int, m: ModuleView) -> Parsed<T> {
    Err(Stopped { error, pos, module: m })
}

/// The failure `error` with the cursor at `pos`, the module as `m` and the
/// globals as `globals`.
pub open spec fn halt(error: ParseErrorView, pos: int, m: ModuleView, globals: Bindings) -> Declared {
    Err(Halted { error, pos, module: m, globals })
}

/// The failure that stands where a construct would have to end before it
/// began. None does: each takes at least one token.
pub open spec fn stalled() -> ParseErrorView {
    ParseETView::EOF.error()
}

/// The same outcome, with `what` added to what was being done if it is a
/// failure.
pub open spec fn during<T>(what: Seq<char>, r: Parsed<T>) -> Parsed<T> {
    match r {
        Ok(v) => Ok(v),
        Err(s) => Err(Stopped { error: s.error.when(what), ..s }),
    }
}

/// The same outcome of a declaration, with `what` added to what was being
/// done if it is a failure.
pub open spec fn declaring(what: Seq<char>, r: Declared) -> Declared {
    match r {
        Ok(v) => Ok(v),
        Err(h) => Err(Halted { error: h.error.when(what), ..h }),
    }
}

/// What a call is made to.
pub enum Callee {
    Primitive(BinOp),
    Function(Ty, Value),
}

/// What the token after `call` names: a primitive for an operator symbol,
/// a binding for a name.
pub open spec fn callee_of(tok: Token, globals: Bindings, locals: Bindings) -> Result<
    Callee,
    ParseErrorView,
> {
    match tok.tt {
        TokenType::Particle(c) => match binary_op(c) {
            Some(op) => Ok(Callee::Primitive(op)),
            None => Err(mismatch("one of + - * / & |"@, tok)),
        },
        TokenType::Ident(name) => match resolve(globals, locals, name@) {
            Some((ty, value)) => Ok(Callee::Function(ty, value)),
            None => Err(unresolved(name@).at(tok.loc)),
        },
        TokenType::Literal(_) => Err(mismatch("[<function>|<operator>]"@, tok)),
    }
}

/// The instruction for a call of `callee` with `args`: a primitive takes
/// the last two arguments, the earlier of them on the left; a function
/// takes them all.
pub open spec fn call_inst(callee: Callee, args: Seq<Value>, label: Seq<char>, at: Token) -> Result<
    InstView,
    ParseErrorView,
> {
    match callee {
        Callee::Primitive(op) => if args.len() >= 2 {
            Ok(
                InstView::Binary {
                    op,
                    lhs: args[args.len() - 2],
                    rhs: args[args.len() - 1],
                    name: label,
                },
            )
        } else {
            Err(ParseETView::ParseError("two operands"@, decimal(args.len())).at(at.loc))
        },
        Callee::Function(ty, value) => Ok(InstView::Call { ty, callee: value, args, name: label }),
    }
}

/// The expression that starts at `pos`: a call, a literal, or a name that
/// stands for a value. `label` names the value if an instruction produces
/// it. A name that stands for nothing is refused behind the name.
pub open spec fn expression_at(
    ts: Seq<Token>,
    pos: int,
    m: ModuleView,
    func: int,
    globals: Bindings,
    locals: Bindings,
    label: Seq<char>,
) -> Parsed<Value>
    decreases ts.len() - pos, 0nat,
{
    match ident_at(ts, pos, "[call|literal|<variable>]"@) {
        Err(e) => stop(e, pos, m),
        Ok(word) => if word@ == "call"@ {
            call_at(ts, pos + 1, m, func, globals, locals, label)
        } else if word@ == "literal"@ {
            literal_at(ts, pos + 1, m)
        } else {
            match resolve(globals, locals, word@) {
                Some((_, value)) => Ok(Emitted { value, pos: pos + 1, module: m }),
                None => stop(unresolved(word@).at(ts[pos].loc), pos + 1, m),
            }
        },
    }
}

/// The call whose callee stands at `pos`: the callee, then the arguments
/// between `with` and `end` if `with` follows. The callee is looked at
/// before any argument is read: a callee that cannot be called is refused
/// on its token, with nothing emitted.
pub open spec fn call_at(
    ts: Seq<Token>,
    pos: int,
    m: ModuleView,
    func: int,
    globals: Bindings,
    locals: Bindings,
    label: Seq<char>,
) -> Parsed<Value>
    decreases ts.len() - pos, 0nat,
{
    during(
        "compiling function call"@,
        match token_at(ts, pos, pos) {
            Err(e) => stop(e, pos, m),
            Ok(tok) => match callee_of(tok, globals, locals) {
                Err(e) => stop(e, pos, m),
                Ok(callee) => {
                    let args = if follows_with(ts, pos + 1) {
                        args_at(ts, pos + 2, m, func, globals, locals)
                    } else {
                        Ok(Emitted { value: Seq::empty(), pos: pos + 1, module: m })
                    };
                    match args {
                        Err(e) => Err(e),
                        Ok(a) => match call_inst(callee, a.value, label, tok) {
                            Err(e) => stop(e, a.pos, a.module),
                            Ok(inst) => Ok(
                                Emitted {
                                    value: a.module.next_value(func),
                                    pos: a.pos,
                                    module: a.module.with_inst(func, inst),
                                },
                            ),
                        },
                    }
                },
            },
        },
    )
}

/// Whether the token at `pos` is the word `with`.
pub open spec fn follows_with(ts: Seq<Token>, pos: int) -> bool {
    0 <= pos < ts.len() && ts[pos].tt is Ident && ts[pos].tt->Ident_0@ == "with"@
}

/// The arguments that start at `pos`: expressions up to the word `end`.
pub open spec fn args_at(
    ts: Seq<Token>,
    pos: int,
    m: ModuleView,
    func: int,
    globals: Bindings,
    locals: Bindings,
) -> Parsed<Seq<Value>>
    decreases ts.len() - pos, 1nat,
{
    match ident_at(ts, pos, "[<arg>|end]"@) {
        Err(e) => stop(e, pos, m),
        Ok(word) => if word@ == "end"@ {
            Ok(Emitted { value: Seq::empty(), pos: pos + 1, module: m })
        } else {
            match expression_at(ts, pos, m, func, globals, locals, ""@) {
                Err(e) => Err(e),
                Ok(first) => if pos < first.pos <= ts.len() {
                    match args_at(ts, first.pos, first.module, func, globals, locals) {
                        Err(e) => Err(e),
                        Ok(rest) => Ok(
                            Emitted {
                                value: seq![first.value] + rest.value,
                                pos: rest.pos,
                                module: rest.module,
                            },
                        ),
                    }
                } else {
                    stop(stalled(), first.pos, first.module)
                },
            }
        },
    }
}

/// The value of a boolean literal as a one-bit integer.
pub open spec fn bit(b: bool) -> u64 {
    if b {
        1
    } else {
        0
    }
}

/// The literal whose type stands at `pos`: a string becomes a constant of
/// the module, an integer a constant of the type written, a boolean a
/// constant of one bit. For a character or a floating-point number nothing
/// is defined, and the literal is refused. After a failure the cursor
/// rests on the type if that is no name, else on the token behind it.
pub open spec fn literal_at(ts: Seq<Token>, pos: int, m: ModuleView) -> Parsed<Value> {
    during(
        "compiling literal"@,
        match ident_at(ts, pos, "type"@) {
            Err(e) => stop(e, pos, m),
            Ok(name) => match type_named(name@) {
                Err(e) => stop(e, pos + 1, m),
                Ok(ty) => match token_at(ts, pos + 1, pos + 1) {
                    Err(e) => stop(e, pos + 1, m),
                    Ok(tok) => match tok.tt {
                        TokenType::Literal(lit) => match lit {
                            Literal::String(s) => Ok(
                                Emitted {
                                    value: Value::Global(m.strings.len() as usize),
                                    pos: pos + 2,
                                    module: m.with_string(s@, ""@),
                                },
                            ),
                            Literal::Number(NumLit::Integer(i)) => Ok(
                                Emitted { value: Value::ConstInt(ty, i), pos: pos + 2, module: m },
                            ),
                            Literal::Bool(b) => Ok(
                                Emitted {
                                    value: Value::ConstInt(PrimTy::I1, bit(b)),
                                    pos: pos + 2,
                                    module: m,
                                },
                            ),
                            _ => stop(
                                ParseETView::ParseLiteralError(
                                    lit@,
                                    "no code is defined for this kind of literal"@,
                                ).at(tok.loc),
                                pos + 1,
                                m,
                            ),
                        },
                        _ => stop(mismatch("literal"@, tok), pos + 1, m),
                    },
                },
            },
        },
    )
}

/// The `let` statement behind its keyword: type, name, `be` and the
/// expression whose value the name is bound to among the locals. Nothing
/// is bound when the statement fails.
pub open spec fn let_at(
    ts: Seq<Token>,
    pos: int,
    m: ModuleView,
    func: int,
    globals: Bindings,
    locals: Bindings,
) -> Parsed<Bindings> {
    during(
        "compiling let statement"@,
        match ident_at(ts, pos, "type"@) {
            Err(e) => stop(e, pos, m),
            Ok(tyname) => match type_named(tyname@) {
                Err(e) => stop(e, pos + 1, m),
                Ok(ty) => match ident_at(ts, pos + 1, "name"@) {
                    Err(e) => stop(e, pos + 1, m),
                    Ok(name) => match keyword_at(ts, pos + 2, "be"@) {
                        Err(e) => stop(e, pos + 2, m),
                        Ok(_) => match expression_at(ts, pos + 3, m, func, globals, locals, name@) {
                            Err(e) => Err(e),
                            Ok(v) => Ok(
                                Emitted {
                                    value: locals.insert(name@, (Ty::Prim(ty), v.value)),
                                    pos: v.pos,
                                    module: v.module,
                                },
                            ),
                        },
                    },
                },
            },
        },
    )
}

/// The `return` statement behind its keyword: `end` for no value, or the
/// expression whose value is returned.
pub open spec fn return_at(
    ts: Seq<Token>,
    pos: int,
    m: ModuleView,
    func: int,
    globals: Bindings,
    locals: Bindings,
) -> Parsed<()> {
    during(
        "compiling return statement"@,
        match ident_at(ts, pos, "[end|<var>]"@) {
            Err(e) => stop(e, pos, m),
            Ok(word) => if word@ == "end"@ {
                Ok(
                    Emitted {
                        value: (),
                        pos: pos + 1,
                        module: m.with_inst(func, InstView::Ret(None)),
                    },
                )
            } else {
                match expression_at(ts, pos, m, func, globals, locals, ""@) {
                    Err(e) => Err(e),
                    Ok(v) => Ok(
                        Emitted {
                            value: (),
                            pos: v.pos,
                            module: v.module.with_inst(func, InstView::Ret(Some(v.value))),
                        },
                    ),
                }
            },
        },
    )
}

/// The statement that starts at `pos`, and the locals after it. A
/// statement that fails leaves the locals as they were.
pub open spec fn statement_at(
    ts: Seq<Token>,
    pos: int,
    m: ModuleView,
    func: int,
    globals: Bindings,
    locals: Bindings,
) -> Parsed<Bindings> {
    match ident_at(ts, pos, "[let|<expr>]"@) {
        Err(e) => stop(e, pos, m),
        Ok(word) => if word@ == "let"@ {
            let_at(ts, pos + 1, m, func, globals, locals)
        } else if word@ == "return"@ {
            match return_at(ts, pos + 1, m, func, globals, locals) {
                Err(e) => Err(e),
                Ok(r) => Ok(Emitted { value: locals, pos: r.pos, module: r.module }),
            }
        } else {
            match expression_at(ts, pos, m, func, globals, locals, ""@) {
                Err(e) => Err(e),
                Ok(v) => Ok(Emitted { value: locals, pos: v.pos, module: v.module }),
            }
        },
    }
}

/// Whether the token at `pos` is the word `end`.
pub open spec fn is_end(tok: Token) -> bool {
    tok.tt is Ident && tok.tt->Ident_0@ == "end"@
}

/// The statements from `pos` up to the word `end`, which is left
/// standing.
pub open spec fn body_at(
    ts: Seq<Token>,
    pos: int,
    m: ModuleView,
    func: int,
    globals: Bindings,
    locals: Bindings,
) -> Parsed<()>
    decreases ts.len() - pos,
{
    match token_at(ts, pos, pos) {
        Err(e) => stop(e, pos, m),
        Ok(tok) => if is_end(tok) {
            Ok(Emitted { value: (), pos, module: m })
        } else {
            match statement_at(ts, pos, m, func, globals, locals) {
                Err(e) => Err(e),
                Ok(s) => if pos < s.pos <= ts.len() {
                    body_at(ts, s.pos, s.module, func, globals, s.value)
                } else {
                    stop(stalled(), s.pos, s.module)
                },
            }
        },
    }
}

/// The module with a return of no value at the end of function `func`,
/// unless a return stands there already.
pub open spec fn closed_with_return(m: ModuleView, func: int) -> ModuleView {
    if m.functions[func].is_terminated() {
        m
    } else {
        m.with_inst(func, InstView::Ret(None))
    }
}

/// The function definition that starts at `pos`, and the globals after
/// it. The function is bound before its body is read, the parameters are
/// the locals the body starts with, and a body of a function without
/// return type that does not end in a return gets one. A failure in the
/// header leaves module and globals as they were, the cursor on the token
/// that was not accepted or, for a type that is none, behind the header; a
/// failure in the body leaves the function declared and bound.
pub open spec fn function_at(ts: Seq<Token>, pos: int, m: ModuleView, globals: Bindings) -> Declared {
    match fn_sig_at(ts, pos) {
        Err(r) => halt(r.error.when("compiling function signature"@), r.pos, m, globals),
        Ok((sig, start)) => match return_type(sig.ret) {
            Err(e) => halt(e.when("compiling function signature"@), start, m, globals),
            Ok(ret) => match param_types(sig.params) {
                Err(e) => halt(e.when("compiling function signature"@), start, m, globals),
                Ok(types) => {
                    let func = m.functions.len() as int;
                    let declared = m.with_function(
                        FunctionView {
                            name: sig.name@,
                            ret,
                            params: types,
                            vararg: sig.vararg,
                            body: Some(Seq::empty()),
                        },
                    );
                    let bound = globals.insert(
                        sig.name@,
                        (Ty::Signature(func as usize), Value::Function(func as usize)),
                    );
                    let locals = param_bindings(sig.params, types, func);
                    match body_at(ts, start, declared, func, bound, locals) {
                        Err(s) => halt(
                            s.error.when("compiling function body"@),
                            s.pos,
                            s.module,
                            bound,
                        ),
                        Ok(body) => Ok(
                            Emitted {
                                value: bound,
                                pos: body.pos + 1,
                                module: if sig.ret is None {
                                    closed_with_return(body.module, func)
                                } else {
                                    body.module
                                },
                            },
                        ),
                    }
                },
            },
        },
    }
}

/// The declaration of an outside function that starts at `pos`, and the
/// globals after it. A declaration that fails adds no function and binds
/// no name.
pub open spec fn extern_at(ts: Seq<Token>, pos: int, m: ModuleView, globals: Bindings) -> Declared {
    declaring(
        "compiling extern function"@,
        match keyword_at(ts, pos, "extern"@) {
            Err(e) => halt(e, pos, m, globals),
            Ok(_) => match fn_sig_at(ts, pos + 1) {
                Err(r) => halt(r.error, r.pos, m, globals),
                Ok((sig, end)) => match return_type(sig.ret) {
                    Err(e) => halt(e, end, m, globals),
                    Ok(ret) => match param_types(sig.params) {
                        Err(e) => halt(e, end, m, globals),
                        Ok(types) => {
                            let func = m.functions.len();
                            Ok(
                                Emitted {
                                    value: globals.insert(
                                        sig.name@,
                                        (
                                            Ty::Signature(func as usize),
                                            Value::Function(func as usize),
                                        ),
                                    ),
                                    pos: end,
                                    module: m.with_function(
                                        FunctionView {
                                            name: sig.name@,
                                            ret,
                                            params: types,
                                            vararg: sig.vararg,
                                            body: None,
                                        },
                                    ),
                                },
                            )
                        },
                    },
                },
            },
        },
    )
}

/// The constant that starts at `pos`, and the globals after it: the name
/// is bound, as a pointer, to a string constant of the module. The type
/// that is written is read and not looked at. A constant that fails adds
/// nothing and binds nothing, and the cursor rests on the token that was
/// not accepted.
pub open spec fn global_const_at(ts: Seq<Token>, pos: int, m: ModuleView, globals: Bindings) -> Declared {
    declaring(
        "compiling global constant"@,
        match keyword_at(ts, pos, "const"@) {
            Err(e) => halt(e, pos, m, globals),
            Ok(_) => match ident_at(ts, pos + 1, "type"@) {
                Err(e) => halt(e, pos + 1, m, globals),
                Ok(_) => match ident_at(ts, pos + 2, "name"@) {
                    Err(e) => halt(e, pos + 2, m, globals),
                    Ok(name) => match keyword_at(ts, pos + 3, "is"@) {
                        Err(e) => halt(e, pos + 3, m, globals),
                        Ok(_) => match token_at(ts, pos + 4, pos + 4) {
                            Err(e) => halt(e, pos + 4, m, globals),
                            Ok(tok) => match tok.tt {
                                TokenType::Literal(Literal::String(s)) => Ok(
                                    Emitted {
                                        value: globals.insert(
                                            name@,
                                            (
                                                Ty::Prim(PrimTy::Ptr),
                                                Value::Global(m.strings.len() as usize),
                                            ),
                                        ),
                                        pos: pos + 5,
                                        module: m.with_string(s@, name@),
                                    },
                                ),
                                TokenType::Literal(lit) => halt(
                                    ParseETView::ParseError(
                                        "string literal [only literal type supported]"@,
                                        lit.description(),
                                    ).at(tok.loc),
                                    pos + 4,
                                    m,
                                    globals,
                                ),
                                _ => halt(mismatch("literal"@, tok), pos + 4, m, globals),
                            },
                        },
                    },
                },
            },
        },
    )
}

/// The declaration that starts at `pos`, which its first word tells. A
/// first word that begins no declaration is refused where it stands.
pub open spec fn declaration_at(ts: Seq<Token>, pos: int, m: ModuleView, globals: Bindings) -> Declared {
    match token_at(ts, pos, pos) {
        Err(e) => halt(e, pos, m, globals),
        Ok(tok) => match tok.tt {
            TokenType::Ident(word) => if word@ == "const"@ {
                global_const_at(ts, pos, m, globals)
            } else if word@ == "extern"@ {
                extern_at(ts, pos, m, globals)
            } else if word@ == "fn"@ {
                function_at(ts, pos, m, globals)
            } else {
                halt(
                    ParseETView::ParseError("[const|extern|fn]"@, word@).at(tok.loc),
                    pos,
                    m,
                    globals,
                )
            },
            _ => halt(mismatch("keyword"@, tok), pos, m, globals),
        },
    }
}

/// The declarations from `pos` to the end of the tokens.
pub open spec fn unit_at(ts: Seq<Token>, pos: int, m: ModuleView, globals: Bindings) -> Declared
    decreases ts.len() - pos,
{
    if pos < 0 || pos >= ts.len() {
        Ok(Emitted { value: globals, pos, module: m })
    } else {
        match declaration_at(ts, pos, m, globals) {
            Err(e) => Err(e),
            Ok(d) => if pos < d.pos <= ts.len() {
                unit_at(ts, d.pos, d.module, d.value)
            } else {
                halt(stalled(), d.pos, d.module, d.value)
            },
        }
    }
}

/// The module a unit starts as: its name, and the entry routine, which is
/// the function with index 0.
pub open spec fn unit_start(name: Seq<char>) -> ModuleView {
    ModuleView::empty(name).with_function(
        FunctionView {
            name: "main"@,
            ret: PrimTy::Void,
            params: Seq::empty(),
            vararg: false,
            body: Some(Seq::empty()),
        },
    )
}

/// The module for the unit that starts at `start`: what its declarations
/// emit, and in the entry routine a call of the function bound to `main`
/// and a return. A unit that binds no `main` is refused.
pub open spec fn unit_module(ts: Seq<Token>, start: int, name: Seq<char>) -> Result<
    ModuleView,
    ParseErrorView,
> {
    match unit_at(ts, start, unit_start(name), Map::empty()) {
        Err(h) => Err(h.error),
        Ok(u) => if u.value.contains_key("main"@) {
            let (ty, callee) = u.value["main"@];
            Ok(
                u.module.with_inst(
                    0,
                    InstView::Call { ty, callee, args: Seq::empty(), name: ""@ },
                ).with_inst(0, InstView::Ret(None)),
            )
        } else {
            Err(unresolved("main"@))
        },
    }
}

} // verus!
