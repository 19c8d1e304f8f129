use mi_compiler::compiler::{
    compile, compile_args, compile_declaration, compile_expression, compile_extern, compile_fn,
    compile_fn_call, compile_global_const, compile_let_assign, compile_literal, compile_return,
    compile_statement, expect_ident, fn_sig, ident_next, operator, ty_str_to_ty,
};
use mi_compiler::ir::{BinOp, Function, GlobalString, Inst, Module, PrimTy, Ty, Value};
use mi_compiler::source::{ParseET, ParseError, Source};
use mi_compiler::symbols::{get_var, SymbolTable};
use mi_compiler::tokens::tok_iter::TokIter;
use mi_compiler::tokens::tokenize::tokenize;
use mi_compiler::tokens::tokens::{Literal, NumLit};

fn lex(text: &str) -> TokIter {
    TokIter::new(tokenize(Source::from_string(text.to_string())).expect("the test input has tokens"))
}

fn expected_found(e: &ParseError) -> (String, String) {
    match &e.et {
        ParseET::ParseError(expected, found) => (expected.clone(), found.clone()),
        other => panic!("not a mismatch: {other:?}"),
    }
}

fn span_of(e: &ParseError) -> (usize, usize) {
    let loc = e.loc.as_ref().expect("the failure has a place");
    (loc.start, loc.end)
}

fn building() -> (Module, SymbolTable, SymbolTable) {
    let mut module = Module::new("unit");
    module.add_function("f".to_string(), PrimTy::Void, vec![], false, true);
    (module, SymbolTable::new(), SymbolTable::new())
}

fn body(module: &Module, func: usize) -> &Vec<Inst> {
    module.functions[func].body.as_ref().expect("the function has a body")
}

fn s(text: &str) -> String {
    text.to_string()
}

#[test]
fn ident_next_takes_a_name_and_refuses_anything_else() {
    let mut t = lex("abc 12");
    assert_eq!(ident_next(&mut t, "name").unwrap(), "abc");
    assert_eq!(t.index, 1);
    let e = ident_next(&mut t, "name").unwrap_err();
    assert_eq!(expected_found(&e), (s("name"), s("Literal(Number(Integer(12)))")));
    assert_eq!(span_of(&e), (4, 5));
    assert_eq!(t.index, 1);
    t.next();
    let e = ident_next(&mut t, "name").unwrap_err();
    assert!(matches!(e.et, ParseET::EOF));
    assert_eq!(span_of(&e), (4, 5));
    assert_eq!(e.context, vec![s("trying to get token")]);
}

#[test]
fn expect_ident_names_what_it_found() {
    let mut t = lex("fn gn +");
    assert!(expect_ident(&mut t, "fn").is_ok());
    assert_eq!(t.index, 1);
    let e = expect_ident(&mut t, "fn").unwrap_err();
    assert_eq!(expected_found(&e), (s("fn"), s("gn")));
    assert_eq!(span_of(&e), (3, 4));
    t.next();
    let e = expect_ident(&mut t, "fn").unwrap_err();
    assert_eq!(expected_found(&e), (s("fn"), s("Particle('+')")));
}

#[test]
fn empty_input_is_its_own_failure() {
    let mut t = lex("");
    let e = ident_next(&mut t, "name").unwrap_err();
    assert!(matches!(e.et, ParseET::EmptyInput));
    assert!(e.loc.is_none());
    assert!(e.context.is_empty());
}

#[test]
fn header_without_type_or_parameters() {
    let mut t = lex("fn main do rest");
    assert_eq!(fn_sig(&mut t).unwrap(), (s("main"), None, vec![], false));
    assert_eq!(t.index, 3);
    let mut t = lex("fn main end");
    assert_eq!(fn_sig(&mut t).unwrap(), (s("main"), None, vec![], false));
    assert_eq!(t.index, 3);
}

#[test]
fn header_with_type() {
    let mut t = lex("fn five i32 do");
    assert_eq!(fn_sig(&mut t).unwrap(), (s("five"), Some(s("i32")), vec![], false));
    assert_eq!(t.index, 4);
}

#[test]
fn header_with_parameters() {
    let mut t = lex("fn f with i32 a i64 b do x");
    assert_eq!(
        fn_sig(&mut t).unwrap(),
        (s("f"), None, vec![(s("i32"), s("a")), (s("i64"), s("b"))], false)
    );
    assert_eq!(t.index, 8);
    let mut t = lex("fn puts ptr with ptr text end");
    assert_eq!(
        fn_sig(&mut t).unwrap(),
        (s("puts"), Some(s("ptr")), vec![(s("ptr"), s("text"))], false)
    );
    assert_eq!(t.index, 7);
}

#[test]
fn header_with_vararg() {
    let mut t = lex("fn printf i32 with vararg ptr format end");
    assert_eq!(
        fn_sig(&mut t).unwrap(),
        (s("printf"), Some(s("i32")), vec![(s("ptr"), s("format"))], true)
    );
    assert_eq!(t.index, 8);
    let mut t = lex("fn any with vararg do");
    assert_eq!(fn_sig(&mut t).unwrap(), (s("any"), None, vec![], true));
    assert_eq!(t.index, 5);
}

#[test]
fn header_with_empty_parameter_list() {
    let mut t = lex("fn f with do");
    assert_eq!(fn_sig(&mut t).unwrap(), (s("f"), None, vec![], false));
    assert_eq!(t.index, 4);
}

#[test]
fn header_failures() {
    let e = fn_sig(&mut lex("gn f do")).unwrap_err();
    assert_eq!(expected_found(&e), (s("fn"), s("gn")));
    let e = fn_sig(&mut lex("fn 7 do")).unwrap_err();
    assert_eq!(expected_found(&e), (s("name"), s("Literal(Number(Integer(7)))")));
    let e = fn_sig(&mut lex("fn f 7")).unwrap_err();
    assert_eq!(expected_found(&e), (s("[with|do|end|<type>]"), s("Literal(Number(Integer(7)))")));
    let e = fn_sig(&mut lex("fn f i32 \"x\"")).unwrap_err();
    assert_eq!(expected_found(&e), (s("[with|do|end]"), s("Literal(String(\"x\"))")));
    // a word that is none of the three is refused where it stands,
    // whether or not a token follows
    let e = fn_sig(&mut lex("fn f i32 foo bar")).unwrap_err();
    assert_eq!(expected_found(&e), (s("[with|do|end]"), s("foo")));
    assert_eq!(span_of(&e), (9, 11));
    let e = fn_sig(&mut lex("fn f i32 foo")).unwrap_err();
    assert_eq!(expected_found(&e), (s("[with|do|end]"), s("foo")));
    assert_eq!(span_of(&e), (9, 11));
    let e = fn_sig(&mut lex("fn f with i32 7 do")).unwrap_err();
    assert_eq!(expected_found(&e), (s("name"), s("Literal(Number(Integer(7)))")));
    let e = fn_sig(&mut lex("fn f with i32 a 7")).unwrap_err();
    assert_eq!(expected_found(&e), (s("[do|end]"), s("Literal(Number(Integer(7)))")));
    let e = fn_sig(&mut lex("fn f with 7")).unwrap_err();
    assert_eq!(expected_found(&e), (s("<vararg?>"), s("Literal(Number(Integer(7)))")));
    let e = fn_sig(&mut lex("fn f with vararg 7")).unwrap_err();
    assert_eq!(expected_found(&e), (s("[with|do|end|<type>]"), s("Literal(Number(Integer(7)))")));
    let e = fn_sig(&mut lex("fn f with i32 a")).unwrap_err();
    assert!(matches!(e.et, ParseET::EOF));
}

#[test]
fn header_failure_leaves_the_cursor_on_the_token_refused() {
    for (text, at) in [
        ("const x", 0),
        ("fn 7 do", 1),
        ("fn f 7", 2),
        ("fn f i32 7", 3),
        ("fn f i32 foo bar", 3),
        ("fn f i32 foo", 3),
        ("fn f with 7", 3),
        ("fn f with vararg 7", 4),
        ("fn f with i32 7 do", 4),
        ("fn f with i32 a 7", 5),
        ("fn f i32 with i32 a i64 7", 7),
        ("fn f", 2),
        ("fn f with i32 a", 5),
    ] {
        let mut t = lex(text);
        let before = t.vec.clone();
        assert!(fn_sig(&mut t).is_err(), "{text}");
        assert_eq!(t.index, at, "{text}");
        assert_eq!(t.vec, before);
    }
}

#[test]
fn a_callee_that_cannot_be_called_is_refused_before_anything_is_emitted() {
    for text in [
        "nothing with literal ptr \"s\" call + with literal i8 1 literal i8 2 end end",
        "% with call + with literal i8 1 literal i8 2 end literal i8 3 end",
        "7 with literal ptr \"s\" end",
        "nothing end",
    ] {
        let (mut m, g, l) = building();
        let mut t = lex(text);
        assert!(compile_fn_call(&mut t, &mut m, 0, &g, &l, "").is_err());
        assert_eq!(t.index, 0, "{text}");
        assert!(body(&m, 0).is_empty(), "{text}");
        assert!(m.strings.is_empty(), "{text}");
        assert_eq!(m.functions.len(), 1);
    }
}

#[test]
fn a_call_that_fails_later_leaves_what_its_arguments_emitted() {
    let (mut m, g, l) = building();
    let mut t = lex("+ with call * with literal i8 1 literal i8 2 end end rest");
    let e = compile_fn_call(&mut t, &mut m, 0, &g, &l, "").unwrap_err();
    assert_eq!(expected_found(&e), (s("two operands"), s("1")));
    // the cursor stands behind the arguments, the inner product is emitted
    assert_eq!(t.index, 13);
    assert_eq!(body(&m, 0).len(), 1);
    let mut t = lex("+ with literal ptr \"kept\" literal i8 x end");
    let e = compile_fn_call(&mut t, &mut m, 0, &g, &l, "").unwrap_err();
    assert_eq!(expected_found(&e), (s("literal"), s("Ident(\"x\")")));
    assert_eq!(t.index, 7);
    assert_eq!(m.strings.len(), 1);
    assert_eq!(body(&m, 0).len(), 1);
}

#[test]
fn expression_failures_leave_the_cursor_where_they_arose() {
    let (mut m, g, mut l) = building();
    for (text, at) in [("7", 0), ("unknown more", 1), ("literal 7", 1), ("literal i16 1", 2),
        ("literal i32 x", 2), ("literal i32", 2), ("call", 1), ("call 7", 1)] {
        let mut t = lex(text);
        assert!(compile_expression(&mut t, &mut m, 0, &g, &l, "").is_err(), "{text}");
        assert_eq!(t.index, at, "{text}");
    }
    for (text, at) in [("let 7", 1), ("let i16 x", 2), ("let i32 7", 2), ("let i32 x is", 3),
        ("let i32 x be y", 5), ("return 7", 1), ("return y", 2), ("7", 0)] {
        let mut t = lex(text);
        assert!(compile_statement(&mut t, &mut m, 0, &g, &mut l).is_err(), "{text}");
        assert_eq!(t.index, at, "{text}");
        assert!(l.entries.is_empty(), "{text}");
    }
    assert!(body(&m, 0).is_empty());
    assert!(m.strings.is_empty());
}

#[test]
fn a_constant_that_fails_adds_and_binds_nothing() {
    for (text, at) in [
        ("let str x is \"s\"", 0),
        ("const 7 x is \"s\"", 1),
        ("const str 7 is \"s\"", 2),
        ("const str x be \"s\"", 3),
        ("const str x is 5", 4),
        ("const str x is y", 4),
        ("const str x is", 4),
    ] {
        let mut m = Module::new("unit");
        let mut g = SymbolTable::new();
        g.define(s("old"), Ty::Prim(PrimTy::Ptr), Value::Global(7));
        let mut t = lex(text);
        assert!(compile_global_const(&mut t, &mut m, &mut g).is_err(), "{text}");
        assert_eq!(t.index, at, "{text}");
        assert_eq!(g.entries.len(), 1, "{text}");
        assert_eq!(m, Module::new("unit"), "{text}");
    }
}

#[test]
fn an_extern_that_fails_adds_and_binds_nothing() {
    for (text, found, at) in [
        ("extern fn f u8 with i16 a end", "u8", 8),
        ("extern fn f with i16 a u8 b end", "i16", 9),
        ("extern fn f i32 with i32 a u8 b i16 c end", "u8", 12),
    ] {
        let mut m = Module::new("unit");
        let mut g = SymbolTable::new();
        let mut t = lex(text);
        let e = compile_extern(&mut t, &mut m, &mut g).unwrap_err();
        assert_eq!(expected_found(&e), (s("valid type"), s(found)), "{text}");
        assert_eq!(t.index, at, "{text}");
        assert!(g.entries.is_empty(), "{text}");
        assert_eq!(m, Module::new("unit"), "{text}");
    }
    let mut m = Module::new("unit");
    let mut g = SymbolTable::new();
    let mut t = lex("extern fn 7");
    assert!(compile_extern(&mut t, &mut m, &mut g).is_err());
    assert_eq!(t.index, 2);
    assert!(g.entries.is_empty() && m.functions.is_empty());
}

#[test]
fn a_function_that_fails_in_its_body_stays_declared_and_bound() {
    let mut m = Module::new("unit");
    let mut g = SymbolTable::new();
    let mut t = lex("fn f i32 with i32 a do let i32 x be a return y end");
    let e = compile_fn(&mut t, &mut m, &mut g).unwrap_err();
    assert!(matches!(&e.et, ParseET::VariableError(n) if n == "y"));
    assert_eq!(t.index, 14);
    assert_eq!(g.get("f"), Some((Ty::Signature(0), Value::Function(0))));
    assert_eq!(m.functions.len(), 1);
    assert!(body(&m, 0).is_empty());
    // a failure in the header leaves nothing behind
    let mut m = Module::new("unit");
    let mut g = SymbolTable::new();
    let mut t = lex("fn f i16 do end");
    assert!(compile_fn(&mut t, &mut m, &mut g).is_err());
    assert_eq!(t.index, 4);
    assert!(g.entries.is_empty() && m.functions.is_empty());
    let mut t = lex("fn f i32 oops end");
    assert!(compile_declaration(&mut t, &mut m, &mut g).is_err());
    assert_eq!(t.index, 3);
    assert!(g.entries.is_empty() && m.functions.is_empty());
    let mut t = lex("oops");
    assert!(compile_declaration(&mut t, &mut m, &mut g).is_err());
    assert_eq!(t.index, 0);
}

#[test]
fn type_names() {
    assert_eq!(ty_str_to_ty("void").unwrap(), PrimTy::Void);
    assert_eq!(ty_str_to_ty("ptr").unwrap(), PrimTy::Ptr);
    assert_eq!(ty_str_to_ty("i8").unwrap(), PrimTy::I8);
    assert_eq!(ty_str_to_ty("i32").unwrap(), PrimTy::I32);
    assert_eq!(ty_str_to_ty("i64").unwrap(), PrimTy::I64);
    assert_eq!(ty_str_to_ty("i128").unwrap(), PrimTy::I128);
    let e = ty_str_to_ty("i16").unwrap_err();
    assert_eq!(expected_found(&e), (s("valid type"), s("i16")));
    assert!(e.loc.is_none());
    assert!(ty_str_to_ty("i1").is_err());
    assert!(ty_str_to_ty("").is_err());
}

#[test]
fn operator_symbols() {
    assert_eq!(operator('+'), Some(BinOp::Add));
    assert_eq!(operator('-'), Some(BinOp::Sub));
    assert_eq!(operator('*'), Some(BinOp::Mul));
    assert_eq!(operator('/'), Some(BinOp::SDiv));
    assert_eq!(operator('&'), Some(BinOp::And));
    assert_eq!(operator('|'), Some(BinOp::Or));
    assert_eq!(operator('%'), None);
}

#[test]
fn names_resolve_locals_first() {
    let mut globals = SymbolTable::new();
    let mut locals = SymbolTable::new();
    globals.define(s("x"), Ty::Prim(PrimTy::I32), Value::ConstInt(PrimTy::I32, 1));
    globals.define(s("g"), Ty::Prim(PrimTy::Ptr), Value::Global(0));
    locals.define(s("x"), Ty::Prim(PrimTy::I64), Value::ConstInt(PrimTy::I64, 2));
    assert_eq!(
        get_var("x", &globals, &locals).unwrap(),
        (Ty::Prim(PrimTy::I64), Value::ConstInt(PrimTy::I64, 2))
    );
    assert_eq!(get_var("g", &globals, &locals).unwrap(), (Ty::Prim(PrimTy::Ptr), Value::Global(0)));
    // without the local tier the global binding is what the name stands for
    assert_eq!(
        get_var("x", &globals, &SymbolTable::new()).unwrap(),
        (Ty::Prim(PrimTy::I32), Value::ConstInt(PrimTy::I32, 1))
    );
    let e = get_var("y", &globals, &locals).unwrap_err();
    assert!(matches!(&e.et, ParseET::VariableError(n) if n == "y"));
    assert!(e.loc.is_none());
}

#[test]
fn redefinition_overwrites() {
    let mut t = SymbolTable::new();
    assert_eq!(t.get("a"), None);
    t.define(s("a"), Ty::Prim(PrimTy::I8), Value::Global(1));
    t.define(s("b"), Ty::Prim(PrimTy::I8), Value::Global(2));
    t.define(s("a"), Ty::Prim(PrimTy::Ptr), Value::Global(3));
    assert_eq!(t.get("a"), Some((Ty::Prim(PrimTy::Ptr), Value::Global(3))));
    assert_eq!(t.get("b"), Some((Ty::Prim(PrimTy::I8), Value::Global(2))));
}

#[test]
fn literals() {
    let (mut m, _, _) = building();
    let mut t = lex("i32 42 i64 7 i8 true ptr \"hi\" i32 false");
    assert_eq!(compile_literal(&mut t, &mut m).unwrap(), Value::ConstInt(PrimTy::I32, 42));
    assert_eq!(compile_literal(&mut t, &mut m).unwrap(), Value::ConstInt(PrimTy::I64, 7));
    assert_eq!(compile_literal(&mut t, &mut m).unwrap(), Value::ConstInt(PrimTy::I1, 1));
    assert_eq!(compile_literal(&mut t, &mut m).unwrap(), Value::Global(0));
    assert_eq!(compile_literal(&mut t, &mut m).unwrap(), Value::ConstInt(PrimTy::I1, 0));
    assert_eq!(t.index, 10);
    assert_eq!(m.strings, vec![GlobalString { value: s("hi"), name: s("") }]);
    assert!(body(&m, 0).is_empty());
}

#[test]
fn literal_failures() {
    let (mut m, _, _) = building();
    let e = compile_literal(&mut lex("i16 1"), &mut m).unwrap_err();
    assert_eq!(expected_found(&e), (s("valid type"), s("i16")));
    let e = compile_literal(&mut lex("i32 x"), &mut m).unwrap_err();
    assert_eq!(expected_found(&e), (s("literal"), s("Ident(\"x\")")));
    assert_eq!(span_of(&e), (4, 4));
    let e = compile_literal(&mut lex("i32 'c'"), &mut m).unwrap_err();
    assert!(matches!(&e.et, ParseET::ParseLiteralError(Literal::Char('c'), _)));
    assert_eq!(
        e.render(),
        "Char literal parsing error:\n    no code is defined for this kind of literal\n    while compiling literal\n\nat: <string>: 1:4..1:6\n  1 | i32 'c'\n    |     ^^^"
    );
    let e = compile_literal(&mut lex("i32 1.5"), &mut m).unwrap_err();
    assert!(matches!(&e.et, ParseET::ParseLiteralError(Literal::Number(NumLit::Float(f)), _) if f == "1.5"));
    let e = compile_literal(&mut lex("i32"), &mut m).unwrap_err();
    assert!(matches!(e.et, ParseET::EOF));
    assert!(m.strings.is_empty());
}

#[test]
fn operators_take_the_last_two_arguments_in_order() {
    let (mut m, g, l) = building();
    let mut t = lex("call + with literal i32 2 literal i32 3 end call - with literal i32 10 literal i32 4 end");
    let a = compile_expression(&mut t, &mut m, 0, &g, &l, "sum").unwrap();
    assert_eq!(a, Value::Inst(0, 0));
    assert_eq!(t.index, 10);
    let b = compile_expression(&mut t, &mut m, 0, &g, &l, "").unwrap();
    assert_eq!(b, Value::Inst(0, 1));
    assert_eq!(t.index, 20);
    assert_eq!(
        body(&m, 0),
        &vec![
            Inst::Binary {
                op: BinOp::Add,
                lhs: Value::ConstInt(PrimTy::I32, 2),
                rhs: Value::ConstInt(PrimTy::I32, 3),
                name: s("sum"),
            },
            Inst::Binary {
                op: BinOp::Sub,
                lhs: Value::ConstInt(PrimTy::I32, 10),
                rhs: Value::ConstInt(PrimTy::I32, 4),
                name: s(""),
            },
        ]
    );
}

#[test]
fn each_operator_selects_its_primitive() {
    for (sym, op) in [
        ("+", BinOp::Add),
        ("-", BinOp::Sub),
        ("*", BinOp::Mul),
        ("/", BinOp::SDiv),
        ("&", BinOp::And),
        ("|", BinOp::Or),
    ] {
        let (mut m, g, l) = building();
        let mut t = lex(&format!("{sym} with literal i8 1 literal i8 2 literal i8 3 end"));
        let v = compile_fn_call(&mut t, &mut m, 0, &g, &l, "r").unwrap();
        assert_eq!(v, Value::Inst(0, 0));
        assert_eq!(
            body(&m, 0),
            &vec![Inst::Binary {
                op,
                lhs: Value::ConstInt(PrimTy::I8, 2),
                rhs: Value::ConstInt(PrimTy::I8, 3),
                name: s("r"),
            }]
        );
    }
}

#[test]
fn nested_calls_emit_inner_first() {
    let (mut m, g, l) = building();
    let mut t = lex("call * with call + with literal i32 1 literal i32 2 end literal i32 3 end");
    let v = compile_expression(&mut t, &mut m, 0, &g, &l, "p").unwrap();
    assert_eq!(v, Value::Inst(0, 1));
    assert_eq!(
        body(&m, 0),
        &vec![
            Inst::Binary {
                op: BinOp::Add,
                lhs: Value::ConstInt(PrimTy::I32, 1),
                rhs: Value::ConstInt(PrimTy::I32, 2),
                name: s(""),
            },
            Inst::Binary {
                op: BinOp::Mul,
                lhs: Value::Inst(0, 0),
                rhs: Value::ConstInt(PrimTy::I32, 3),
                name: s("p"),
            },
        ]
    );
}

#[test]
fn call_failures() {
    let (mut m, g, l) = building();
    let e = compile_fn_call(&mut lex("% with literal i8 1 literal i8 2 end"), &mut m, 0, &g, &l, "")
        .unwrap_err();
    assert_eq!(expected_found(&e), (s("one of + - * / & |"), s("Particle('%')")));
    assert_eq!(span_of(&e), (0, 0));
    let e = compile_fn_call(&mut lex("+ with literal i8 1 end"), &mut m, 0, &g, &l, "").unwrap_err();
    assert_eq!(expected_found(&e), (s("two operands"), s("1")));
    let e = compile_fn_call(&mut lex("+"), &mut m, 0, &g, &l, "").unwrap_err();
    assert_eq!(expected_found(&e), (s("two operands"), s("0")));
    let e = compile_fn_call(&mut lex("nothing with end"), &mut m, 0, &g, &l, "").unwrap_err();
    assert!(matches!(&e.et, ParseET::VariableError(n) if n == "nothing"));
    assert_eq!(span_of(&e), (0, 6));
    let e = compile_fn_call(&mut lex("7 with end"), &mut m, 0, &g, &l, "").unwrap_err();
    assert_eq!(expected_found(&e), (s("[<function>|<operator>]"), s("Literal(Number(Integer(7)))")));
    let e = compile_fn_call(&mut lex("+ with 7 end"), &mut m, 0, &g, &l, "").unwrap_err();
    assert_eq!(expected_found(&e), (s("[<arg>|end]"), s("Literal(Number(Integer(7)))")));
    let e = compile_fn_call(&mut lex("+ with literal i8 1"), &mut m, 0, &g, &l, "").unwrap_err();
    assert!(matches!(e.et, ParseET::EOF));
    let e = compile_fn_call(&mut lex(""), &mut m, 0, &g, &l, "").unwrap_err();
    assert!(matches!(e.et, ParseET::EmptyInput));
}

#[test]
fn arguments_run_to_end() {
    let (mut m, mut g, l) = building();
    g.define(s("k"), Ty::Prim(PrimTy::I32), Value::ConstInt(PrimTy::I32, 9));
    let mut t = lex("k literal i8 1 end tail");
    assert_eq!(
        compile_args(&mut t, &mut m, 0, &g, &l).unwrap(),
        vec![Value::ConstInt(PrimTy::I32, 9), Value::ConstInt(PrimTy::I8, 1)]
    );
    assert_eq!(t.index, 5);
    let mut t = lex("end");
    assert_eq!(compile_args(&mut t, &mut m, 0, &g, &l).unwrap(), vec![]);
    assert_eq!(t.index, 1);
}

#[test]
fn call_without_with_takes_no_arguments_and_no_further_token() {
    let (mut m, mut g, l) = building();
    g.define(s("f"), Ty::Signature(0), Value::Function(0));
    let mut t = lex("call f end");
    let v = compile_expression(&mut t, &mut m, 0, &g, &l, "").unwrap();
    assert_eq!(v, Value::Inst(0, 0));
    assert_eq!(t.index, 2);
    assert_eq!(
        body(&m, 0),
        &vec![Inst::Call { ty: Ty::Signature(0), callee: Value::Function(0), args: vec![], name: s("") }]
    );
}

#[test]
fn a_name_is_its_value() {
    let (mut m, mut g, mut l) = building();
    g.define(s("x"), Ty::Prim(PrimTy::I32), Value::ConstInt(PrimTy::I32, 1));
    l.define(s("x"), Ty::Prim(PrimTy::I32), Value::Param(0, 0));
    let mut t = lex("x y");
    assert_eq!(compile_expression(&mut t, &mut m, 0, &g, &l, "").unwrap(), Value::Param(0, 0));
    assert_eq!(t.index, 1);
    let e = compile_expression(&mut t, &mut m, 0, &g, &l, "").unwrap_err();
    assert!(matches!(&e.et, ParseET::VariableError(n) if n == "y"));
    assert_eq!(span_of(&e), (2, 2));
    assert!(body(&m, 0).is_empty());
}

#[test]
fn let_binds_among_the_locals() {
    let (mut m, g, mut l) = building();
    let mut t = lex("i32 x be call + with literal i32 1 literal i32 2 end");
    compile_let_assign(&mut t, &mut m, 0, &g, &mut l).unwrap();
    assert_eq!(t.index, 13);
    assert_eq!(l.get("x"), Some((Ty::Prim(PrimTy::I32), Value::Inst(0, 0))));
    assert_eq!(g.get("x"), None);
    match &body(&m, 0)[0] {
        Inst::Binary { name, .. } => assert_eq!(name, "x"),
        other => panic!("{other:?}"),
    }
    // the type written is recorded, not checked
    let mut t = lex("let ptr y be literal i64 5");
    compile_statement(&mut t, &mut m, 0, &g, &mut l).unwrap();
    assert_eq!(l.get("y"), Some((Ty::Prim(PrimTy::Ptr), Value::ConstInt(PrimTy::I64, 5))));
}

#[test]
fn let_failures() {
    let (mut m, g, mut l) = building();
    let e = compile_let_assign(&mut lex("i16 x be literal i32 1"), &mut m, 0, &g, &mut l).unwrap_err();
    assert_eq!(expected_found(&e), (s("valid type"), s("i16")));
    let e = compile_let_assign(&mut lex("i32 7 be literal i32 1"), &mut m, 0, &g, &mut l).unwrap_err();
    assert_eq!(expected_found(&e), (s("name"), s("Literal(Number(Integer(7)))")));
    let e = compile_let_assign(&mut lex("i32 x is literal i32 1"), &mut m, 0, &g, &mut l).unwrap_err();
    assert_eq!(expected_found(&e), (s("be"), s("is")));
    let e = compile_let_assign(&mut lex("i32 x be y"), &mut m, 0, &g, &mut l).unwrap_err();
    assert!(matches!(&e.et, ParseET::VariableError(n) if n == "y"));
    assert_eq!(l.get("x"), None);
}

#[test]
fn return_takes_end_or_a_value() {
    let (mut m, g, l) = building();
    let mut t = lex("end literal i32 3");
    compile_return(&mut t, &mut m, 0, &g, &l).unwrap();
    assert_eq!(t.index, 1);
    compile_return(&mut t, &mut m, 0, &g, &l).unwrap();
    assert_eq!(t.index, 4);
    assert_eq!(
        body(&m, 0),
        &vec![Inst::Ret(None), Inst::Ret(Some(Value::ConstInt(PrimTy::I32, 3)))]
    );
    assert!(m.is_terminated(0));
    let e = compile_return(&mut lex("7"), &mut m, 0, &g, &l).unwrap_err();
    assert_eq!(expected_found(&e), (s("[end|<var>]"), s("Literal(Number(Integer(7)))")));
}

#[test]
fn statements() {
    let (mut m, mut g, mut l) = building();
    g.define(s("f"), Ty::Signature(0), Value::Function(0));
    let mut t = lex("call f with end return end");
    compile_statement(&mut t, &mut m, 0, &g, &mut l).unwrap();
    assert_eq!(t.index, 4);
    compile_statement(&mut t, &mut m, 0, &g, &mut l).unwrap();
    assert_eq!(t.index, 6);
    assert_eq!(body(&m, 0).len(), 2);
    let e = compile_statement(&mut lex("7"), &mut m, 0, &g, &mut l).unwrap_err();
    assert_eq!(expected_found(&e), (s("[let|<expr>]"), s("Literal(Number(Integer(7)))")));
}

#[test]
fn const_binds_a_pointer_and_redefinition_overwrites() {
    let mut m = Module::new("unit");
    let mut g = SymbolTable::new();
    let mut t = lex("const str greeting is \"hello\" const whatever greeting is \"bye\"");
    compile_global_const(&mut t, &mut m, &mut g).unwrap();
    assert_eq!(t.index, 5);
    assert_eq!(g.get("greeting"), Some((Ty::Prim(PrimTy::Ptr), Value::Global(0))));
    compile_global_const(&mut t, &mut m, &mut g).unwrap();
    assert_eq!(t.index, 10);
    assert_eq!(g.get("greeting"), Some((Ty::Prim(PrimTy::Ptr), Value::Global(1))));
    assert_eq!(
        m.strings,
        vec![
            GlobalString { value: s("hello"), name: s("greeting") },
            GlobalString { value: s("bye"), name: s("greeting") },
        ]
    );
}

#[test]
fn const_failures() {
    let mut m = Module::new("unit");
    let mut g = SymbolTable::new();
    let e = compile_global_const(&mut lex("const str x is 5"), &mut m, &mut g).unwrap_err();
    assert_eq!(
        expected_found(&e),
        (s("string literal [only literal type supported]"), s("Number(Integer(5))"))
    );
    assert_eq!(span_of(&e), (15, 15));
    let e = compile_global_const(&mut lex("const str x is y"), &mut m, &mut g).unwrap_err();
    assert_eq!(expected_found(&e), (s("literal"), s("Ident(\"y\")")));
    let e = compile_global_const(&mut lex("const str x be \"s\""), &mut m, &mut g).unwrap_err();
    assert_eq!(expected_found(&e), (s("is"), s("be")));
    let e = compile_global_const(&mut lex("let str x is \"s\""), &mut m, &mut g).unwrap_err();
    assert_eq!(expected_found(&e), (s("const"), s("let")));
    let e = compile_global_const(&mut lex("const str x is"), &mut m, &mut g).unwrap_err();
    assert!(matches!(e.et, ParseET::EOF));
    assert_eq!(g.get("x"), None);
    assert!(m.strings.is_empty());
}

#[test]
fn extern_declares_without_body() {
    let mut m = Module::new("unit");
    let mut g = SymbolTable::new();
    let mut t = lex("extern fn printf i32 with vararg ptr format end");
    compile_extern(&mut t, &mut m, &mut g).unwrap();
    assert_eq!(t.index, 9);
    assert_eq!(g.get("printf"), Some((Ty::Signature(0), Value::Function(0))));
    assert_eq!(
        m.functions,
        vec![Function {
            name: s("printf"),
            ret: PrimTy::I32,
            params: vec![PrimTy::Ptr],
            vararg: true,
            body: None,
        }]
    );
    let e = compile_extern(&mut lex("extern fn f with i16 a end"), &mut m, &mut g).unwrap_err();
    assert_eq!(expected_found(&e), (s("valid type"), s("i16")));
    let e = compile_extern(&mut lex("extern fn f u8 end"), &mut m, &mut g).unwrap_err();
    assert_eq!(expected_found(&e), (s("valid type"), s("u8")));
    let e = compile_extern(&mut lex("fn f end"), &mut m, &mut g).unwrap_err();
    assert_eq!(expected_found(&e), (s("extern"), s("fn")));
    assert_eq!(m.functions.len(), 1);
}

#[test]
fn function_without_return_type_gets_a_void_return() {
    let mut m = Module::new("unit");
    let mut g = SymbolTable::new();
    let mut t = lex("fn f do end fn g do return end end fn h do literal i32 1 end");
    compile_fn(&mut t, &mut m, &mut g).unwrap();
    assert_eq!(t.index, 4);
    compile_fn(&mut t, &mut m, &mut g).unwrap();
    assert_eq!(t.index, 10);
    compile_fn(&mut t, &mut m, &mut g).unwrap();
    assert_eq!(t.index, 17);
    assert_eq!(body(&m, 0), &vec![Inst::Ret(None)]);
    // an explicit return at the end is not doubled
    assert_eq!(body(&m, 1), &vec![Inst::Ret(None)]);
    assert_eq!(body(&m, 2), &vec![Inst::Ret(None)]);
    assert!(m.is_terminated(0) && m.is_terminated(1) && m.is_terminated(2));
    assert_eq!(m.functions[0].ret, PrimTy::Void);
}

#[test]
fn function_with_return_type_gets_no_return_of_its_own() {
    let mut m = Module::new("unit");
    let mut g = SymbolTable::new();
    let mut t = lex("fn five i32 do return literal i32 5 end fn none i32 do end");
    compile_fn(&mut t, &mut m, &mut g).unwrap();
    compile_fn(&mut t, &mut m, &mut g).unwrap();
    assert_eq!(body(&m, 0), &vec![Inst::Ret(Some(Value::ConstInt(PrimTy::I32, 5)))]);
    assert!(body(&m, 1).is_empty());
    assert!(!m.is_terminated(1));
}

#[test]
fn parameters_are_bound_in_order() {
    let mut m = Module::new("unit");
    let mut g = SymbolTable::new();
    let mut t = lex("fn f i32 with i32 a i32 b do return call - with a b end end");
    compile_fn(&mut t, &mut m, &mut g).unwrap();
    assert_eq!(m.functions[0].params, vec![PrimTy::I32, PrimTy::I32]);
    assert_eq!(
        body(&m, 0),
        &vec![
            Inst::Binary { op: BinOp::Sub, lhs: Value::Param(0, 0), rhs: Value::Param(0, 1), name: s("") },
            Inst::Ret(Some(Value::Inst(0, 0))),
        ]
    );
    // a later parameter hides an earlier one of the same name
    let mut t = lex("fn g i32 with i32 a i64 a do return a end");
    compile_fn(&mut t, &mut m, &mut g).unwrap();
    assert_eq!(body(&m, 1), &vec![Inst::Ret(Some(Value::Param(1, 1)))]);
}

#[test]
fn function_is_bound_before_its_body() {
    let mut m = Module::new("unit");
    let mut g = SymbolTable::new();
    let mut t = lex("fn again do call again with end end");
    compile_fn(&mut t, &mut m, &mut g).unwrap();
    assert_eq!(g.get("again"), Some((Ty::Signature(0), Value::Function(0))));
    assert_eq!(
        body(&m, 0),
        &vec![
            Inst::Call { ty: Ty::Signature(0), callee: Value::Function(0), args: vec![], name: s("") },
            Inst::Ret(None),
        ]
    );
}

#[test]
fn locals_shadow_globals_and_end_with_the_function() {
    let mut m = Module::new("unit");
    let mut g = SymbolTable::new();
    let mut t = lex(
        "const str x is \"global\" fn f ptr do let i32 x be literal i32 1 return x end fn g ptr do return x end",
    );
    compile_global_const(&mut t, &mut m, &mut g).unwrap();
    compile_fn(&mut t, &mut m, &mut g).unwrap();
    // inside f the local x is returned
    assert_eq!(body(&m, 0), &vec![Inst::Ret(Some(Value::ConstInt(PrimTy::I32, 1)))]);
    // after f the name stands for the constant again
    assert_eq!(g.get("x"), Some((Ty::Prim(PrimTy::Ptr), Value::Global(0))));
    compile_fn(&mut t, &mut m, &mut g).unwrap();
    assert_eq!(body(&m, 1), &vec![Inst::Ret(Some(Value::Global(0)))]);
}

#[test]
fn a_local_of_one_function_is_unknown_in_the_next() {
    let mut t = lex("fn f do let i32 y be literal i32 1 end fn main do return y end");
    let e = compile(std::mem::replace(&mut t, TokIter::new(vec![])), "unit").unwrap_err();
    assert!(matches!(&e.et, ParseET::VariableError(n) if n == "y"));
    assert_eq!(span_of(&e), (57, 57));
}

#[test]
fn function_failures() {
    let mut m = Module::new("unit");
    let mut g = SymbolTable::new();
    let e = compile_fn(&mut lex("fn f i16 do end"), &mut m, &mut g).unwrap_err();
    assert_eq!(expected_found(&e), (s("valid type"), s("i16")));
    let e = compile_fn(&mut lex("fn f with i16 a do end"), &mut m, &mut g).unwrap_err();
    assert_eq!(expected_found(&e), (s("valid type"), s("i16")));
    assert!(m.functions.is_empty());
    assert_eq!(g.get("f"), None);
}

#[test]
fn missing_end_is_end_of_input() {
    for text in [
        "fn main do",
        "fn main do call puts",
        "fn main do return literal i32 1",
        "fn main do let i32 x be literal i32 1",
        "fn main do call + with literal i32 1 literal i32 2",
        "fn main do call + with literal i32 1 literal i32 2 end",
        "fn main",
        "fn",
        "fn main with i32 a",
        "extern fn puts ptr with ptr s",
        "const str x is",
    ] {
        let mut t = lex(&format!("extern fn puts with ptr s end {text}"));
        let e = compile(std::mem::replace(&mut t, TokIter::new(vec![])), "unit").unwrap_err();
        assert!(matches!(e.et, ParseET::EOF), "{text}: {e:?}");
        assert_eq!(e.context[0], "trying to get token", "{text}");
        assert!(e.loc.is_some());
    }
}

#[test]
fn failures_record_what_was_being_compiled() {
    let context = |text: &str| compile(lex(text), "unit").unwrap_err().context;
    assert_eq!(
        context("fn main do let i32 x be call + with literal i32 1 literal"),
        vec![
            s("trying to get token"),
            s("compiling literal"),
            s("compiling function call"),
            s("compiling let statement"),
            s("compiling function body"),
        ]
    );
    assert_eq!(context("fn main do return call nothing end"), vec![
        s("compiling function call"),
        s("compiling return statement"),
        s("compiling function body"),
    ]);
    assert_eq!(context("fn main do"), vec![s("trying to get token"), s("compiling function body")]);
    assert_eq!(context("fn main i16 do end"), vec![s("compiling function signature")]);
    assert_eq!(context("fn main with i16 a do end"), vec![s("compiling function signature")]);
    assert_eq!(context("fn 5"), vec![s("compiling function signature")]);
    assert_eq!(context("extern fn f with i16 a end"), vec![s("compiling extern function")]);
    assert_eq!(context("extern gn"), vec![s("compiling extern function")]);
    assert_eq!(context("const str x is 5"), vec![s("compiling global constant")]);
    assert_eq!(context("const str"), vec![s("trying to get token"), s("compiling global constant")]);
    assert_eq!(context("fn main do undefined end"), vec![s("compiling function body")]);
    assert_eq!(context("fn main do literal i32 x end"), vec![s("compiling literal"), s("compiling function body")]);
    assert_eq!(context("let"), Vec::<String>::new());
    assert_eq!(context("5"), Vec::<String>::new());
}

#[test]
fn declarations_are_told_by_their_first_word() {
    let mut m = Module::new("unit");
    let mut g = SymbolTable::new();
    let mut t = lex("const s a is \"x\" extern fn f end fn g do end let 5");
    compile_declaration(&mut t, &mut m, &mut g).unwrap();
    compile_declaration(&mut t, &mut m, &mut g).unwrap();
    compile_declaration(&mut t, &mut m, &mut g).unwrap();
    assert_eq!(t.index, 13);
    assert_eq!(m.functions.len(), 2);
    assert_eq!(m.strings.len(), 1);
    let e = compile_declaration(&mut t, &mut m, &mut g).unwrap_err();
    assert_eq!(expected_found(&e), (s("[const|extern|fn]"), s("let")));
    t.next();
    let e = compile_declaration(&mut t, &mut m, &mut g).unwrap_err();
    assert_eq!(expected_found(&e), (s("keyword"), s("Literal(Number(Integer(5)))")));
}

#[test]
fn unit_with_extern_and_main() {
    let t = lex("extern fn puts ptr with ptr s end fn main do call puts with literal ptr \"hi\" end end");
    let m = compile(t, "hello").unwrap();
    assert_eq!(
        m,
        Module {
            name: s("hello"),
            functions: vec![
                Function {
                    name: s("main"),
                    ret: PrimTy::Void,
                    params: vec![],
                    vararg: false,
                    body: Some(vec![
                        Inst::Call {
                            ty: Ty::Signature(2),
                            callee: Value::Function(2),
                            args: vec![],
                            name: s(""),
                        },
                        Inst::Ret(None),
                    ]),
                },
                Function {
                    name: s("puts"),
                    ret: PrimTy::Ptr,
                    params: vec![PrimTy::Ptr],
                    vararg: false,
                    body: None,
                },
                Function {
                    name: s("main"),
                    ret: PrimTy::Void,
                    params: vec![],
                    vararg: false,
                    body: Some(vec![
                        Inst::Call {
                            ty: Ty::Signature(1),
                            callee: Value::Function(1),
                            args: vec![Value::Global(0)],
                            name: s(""),
                        },
                        Inst::Ret(None),
                    ]),
                },
            ],
            strings: vec![GlobalString { value: s("hi"), name: s("") }],
        }
    );
}

#[test]
fn a_stray_end_is_no_declaration() {
    // one `end` closes the header of `puts`; a second one stands alone
    let t = lex("extern fn puts ptr with ptr s do end fn main do call puts with literal ptr \"hi\" end end end");
    let e = compile(t, "hello").unwrap_err();
    assert_eq!(expected_found(&e), (s("[const|extern|fn]"), s("end")));
    assert_eq!(span_of(&e), (33, 35));
}

#[test]
fn unit_without_main_is_refused() {
    let e = compile(lex("fn other do end"), "unit").unwrap_err();
    assert!(matches!(&e.et, ParseET::VariableError(n) if n == "main"));
    assert_eq!(e.render(), "cant find variable:\n    main");
    let e = compile(lex(""), "unit").unwrap_err();
    assert!(matches!(&e.et, ParseET::VariableError(n) if n == "main"));
}

#[test]
fn unit_starts_at_the_cursor() {
    let mut t = lex("junk fn main do end");
    t.next();
    let m = compile(t, "unit").unwrap();
    assert_eq!(m.functions.len(), 2);
    assert_eq!(body(&m, 0).len(), 2);
}

#[test]
fn main_may_be_a_constant_as_far_as_the_engine_checks() {
    let m = compile(lex("const str main is \"x\""), "unit").unwrap();
    assert_eq!(
        body(&m, 0)[0],
        Inst::Call { ty: Ty::Prim(PrimTy::Ptr), callee: Value::Global(0), args: vec![], name: s("") }
    );
}

/// Whether `v` is something that instruction `at` of function `func` may
/// name.
fn in_scope(m: &Module, func: usize, at: usize, v: &Value) -> bool {
    match *v {
        Value::Function(i) => i < m.functions.len(),
        Value::Global(i) => i < m.strings.len(),
        Value::Param(f, i) => f == func && i < m.functions[f].params.len(),
        Value::Inst(f, i) => f == func && i < at,
        Value::ConstInt(_, _) => true,
    }
}

fn well_scoped(m: &Module) -> bool {
    m.functions.iter().enumerate().all(|(func, f)| {
        f.body.iter().flatten().enumerate().all(|(at, inst)| match inst {
            Inst::Binary { lhs, rhs, .. } => in_scope(m, func, at, lhs) && in_scope(m, func, at, rhs),
            Inst::Call { callee, args, .. } => {
                in_scope(m, func, at, callee) && args.iter().all(|a| in_scope(m, func, at, a))
            },
            Inst::Ret(Some(v)) => in_scope(m, func, at, v),
            Inst::Ret(None) => true,
        })
    })
}

#[test]
fn instructions_name_only_what_stands_before_them() {
    let m = compile(
        lex("const str hello is \"hi\" extern fn puts i32 with ptr s end \
             fn twice i32 with i32 n do let i32 d be call + with n n end return d end \
             fn main do let i32 x be call twice with literal i32 4 end \
             let i32 y be call * with x call twice with x end end \
             call puts with hello end call puts with literal ptr \"bye\" end end"),
        "unit",
    )
    .unwrap();
    assert!(well_scoped(&m));
    assert!(m.is_well_scoped());
    assert_eq!(m.functions.len(), 4);
    assert_eq!(
        body(&m, 3),
        &vec![
            Inst::Call {
                ty: Ty::Signature(2),
                callee: Value::Function(2),
                args: vec![Value::ConstInt(PrimTy::I32, 4)],
                name: s("x"),
            },
            Inst::Call {
                ty: Ty::Signature(2),
                callee: Value::Function(2),
                args: vec![Value::Inst(3, 0)],
                name: s(""),
            },
            Inst::Binary { op: BinOp::Mul, lhs: Value::Inst(3, 0), rhs: Value::Inst(3, 1), name: s("y") },
            Inst::Call {
                ty: Ty::Signature(1),
                callee: Value::Function(1),
                args: vec![Value::Global(0)],
                name: s(""),
            },
            Inst::Call {
                ty: Ty::Signature(1),
                callee: Value::Function(1),
                args: vec![Value::Global(1)],
                name: s(""),
            },
            Inst::Ret(None),
        ]
    );
    // the check is no empty one: a value of another function is refused
    let mut bad = Module::new("bad");
    bad.add_function(s("f"), PrimTy::Void, vec![], false, true);
    bad.emit(0, Inst::Ret(Some(Value::Inst(0, 0))));
    assert!(!well_scoped(&bad));
    assert!(!bad.is_well_scoped());
    assert!(!bad.function_is_scoped(0));
    assert!(!bad.inst_in_scope(0, 0, &Inst::Ret(Some(Value::Inst(0, 0)))));
    assert!(bad.inst_in_scope(0, 1, &Inst::Ret(Some(Value::Inst(0, 0)))));
    assert!(bad.value_in_scope(0, 0, &Value::Function(0)));
    assert!(!bad.value_in_scope(0, 0, &Value::Function(1)));
    assert!(!bad.value_in_scope(0, 0, &Value::Global(0)));
    assert!(!bad.value_in_scope(0, 0, &Value::Param(0, 0)));
    assert!(!bad.value_in_scope(0, 9, &Value::Inst(1, 0)));
    assert!(bad.value_in_scope(0, 0, &Value::ConstInt(PrimTy::I8, 1)));
    for (args, ok) in [(vec![Value::Function(0)], true), (vec![Value::Function(0), Value::Global(3)], false)] {
        let call = Inst::Call { ty: Ty::Signature(0), callee: Value::Function(0), args, name: s("") };
        assert_eq!(bad.inst_in_scope(0, 0, &call), ok);
    }
    assert!(PrimTy::I1.is_integer() && PrimTy::I128.is_integer());
    assert!(!PrimTy::Void.is_integer() && !PrimTy::Ptr.is_integer());
}

#[test]
fn a_finished_function_stays_as_it_is() {
    let first = compile(lex("fn main do call main end"), "unit").unwrap();
    let both = compile(lex("fn main do call main end fn other do call main call other end"), "unit").unwrap();
    assert_eq!(first.functions[1], both.functions[1]);
    assert_eq!(first.functions[0], both.functions[0]);
    assert_eq!(both.functions.len(), 3);
}

#[test]
fn module_operations() {
    let mut m = Module::new("m");
    assert_eq!(m.name, "m");
    assert!(!m.is_building(0));
    let d = m.add_function(s("d"), PrimTy::I8, vec![PrimTy::I8], false, false);
    let f = m.add_function(s("f"), PrimTy::Void, vec![], true, true);
    assert_eq!((d, f), (0, 1));
    assert!(!m.is_building(0));
    assert!(m.is_building(1));
    assert!(!m.is_building(2));
    assert!(!m.is_terminated(0));
    assert!(!m.is_terminated(1));
    assert_eq!(m.emit(1, Inst::Ret(None)), Value::Inst(1, 0));
    assert_eq!(m.emit(1, Inst::Ret(None)), Value::Inst(1, 1));
    assert!(m.is_terminated(1));
    assert_eq!(m.add_string(s("a"), s("n")), Value::Global(0));
    assert_eq!(m.add_string(s("b"), s("")), Value::Global(1));
}
