//! The module the engine emits: functions of one straight-line block each,
//! string constants, and the handles by which instructions name values.

use vstd::prelude::*;

verus! {

/// The primitive types of the language, and the one-bit integer that a
/// boolean literal has.
#[derive(Clone, Copy, Debug, PartialEq, Eq, Structural)]
pub enum PrimTy {
    Void,
    Ptr,
    I1,
    I8,
    I32,
    I64,
    I128,
}

impl PrimTy {
    /// Whether values of the type are integers.
    pub open spec fn integer(self) -> bool {
        !(self is Void) && !(self is Ptr)
    }

    /// Whether values of the type are integers.
    pub fn is_integer(self) -> (res: bool)
        ensures
            res == self.integer(),
    {
        match self {
            PrimTy::Void | PrimTy::Ptr => false,
            _ => true,
        }
    }
}

/// The type recorded with a binding: a primitive type, or the signature of
/// the function with the given index in the module.
#[derive(Clone, Copy, Debug, PartialEq, Eq, Structural)]
pub enum Ty {
    Prim(PrimTy),
    Signature(usize),
}

/// A handle to a value. Functions and string constants are named by their
/// index in the module, a parameter by its function and position, the
/// result of an instruction by its function and its index in the body.
#[derive(Clone, Copy, Debug, PartialEq, Eq, Structural)]
pub enum Value {
    Function(usize),
    Global(usize),
    Param(usize, usize),
    Inst(usize, usize),
    ConstInt(PrimTy, u64),
}

/// The two-operand primitives.
#[derive(Clone, Copy, Debug, PartialEq, Eq, Structural)]
pub enum BinOp {
    Add,
    Sub,
    Mul,
    SDiv,
    And,
    Or,
}

/// An instruction. `name` is the label given to the value it produces.
#[derive(Debug, PartialEq, Eq)]
pub enum Inst {
    Binary { op: BinOp, lhs: Value, rhs: Value, name: String },
    Call { ty: Ty, callee: Value, args: Vec<Value>, name: String },
    Ret(Option<Value>),
}

/// An instruction, with its label and arguments as sequences.
pub enum InstView {
    Binary { op: BinOp, lhs: Value, rhs: Value, name: Seq<char> },
    Call { ty: Ty, callee: Value, args: Seq<Value>, name: Seq<char> },
    Ret(Option<Value>),
}

impl View for Inst {
    type V = InstView;

    open spec fn view(&self) -> InstView {
        match self {
            Inst::Binary { op, lhs, rhs, name } => InstView::Binary {
                op: *op,
                lhs: *lhs,
                rhs: *rhs,
                name: name@,
            },
            Inst::Call { ty, callee, args, name } => InstView::Call {
                ty: *ty,
                callee: *callee,
                args: args@,
                name: name@,
            },
            Inst::Ret(v) => InstView::Ret(*v),
        }
    }
}

impl InstView {
    /// Whether the instruction ends a block.
    pub open spec fn is_terminator(self) -> bool {
        self is Ret
    }
}

/// The views of a sequence of instructions.
pub open spec fn inst_views(insts: Seq<Inst>) -> Seq<InstView> {
    Seq::new(insts.len(), |i: int| insts[i]@)
}

/// A function: its signature and, unless it is only declared, the
/// instructions of its one block.
#[derive(Debug, PartialEq, Eq)]
pub struct Function {
    pub name: String,
    pub ret: PrimTy,
    pub params: Vec<PrimTy>,
    pub vararg: bool,
    pub body: Option<Vec<Inst>>,
}

/// A function, with its name, parameters and body as sequences.
pub struct FunctionView {
    pub name: Seq<char>,
    pub ret: PrimTy,
    pub params: Seq<PrimTy>,
    pub vararg: bool,
    pub body: Option<Seq<InstView>>,
}

impl View for Function {
    type V = FunctionView;

    open spec fn view(&self) -> FunctionView {
        FunctionView {
            name: self.name@,
            ret: self.ret,
            params: self.params@,
            vararg: self.vararg,
            body: match self.body {
                Some(insts) => Some(inst_views(insts@)),
                None => None,
            },
        }
    }
}

impl FunctionView {
    /// The function with one more instruction at the end of its body; a
    /// function that is only declared stays as it is.
    pub open spec fn with_inst(self, inst: InstView) -> FunctionView {
        match self.body {
            Some(insts) => FunctionView { body: Some(insts.push(inst)), ..self },
            None => self,
        }
    }

    /// Whether the body ends with a return.
    pub open spec fn is_terminated(self) -> bool {
        match self.body {
            Some(insts) => insts.len() > 0 && insts.last().is_terminator(),
            None => false,
        }
    }
}

/// The views of a sequence of functions.
pub open spec fn function_views(fs: Seq<Function>) -> Seq<FunctionView> {
    Seq::new(fs.len(), |i: int| fs[i]@)
}

/// A string constant of the module, and the label it was given.
#[derive(Debug, PartialEq, Eq)]
pub struct GlobalString {
    pub value: String,
    pub name: String,
}

/// A string constant, with value and label as sequences.
pub struct GlobalStringView {
    pub value: Seq<char>,
    pub name: Seq<char>,
}

impl View for GlobalString {
    type V = GlobalStringView;

    open spec fn view(&self) -> GlobalStringView {
        GlobalStringView { value: self.value@, name: self.name@ }
    }
}

/// The views of a sequence of string constants.
pub open spec fn string_views(gs: Seq<GlobalString>) -> Seq<GlobalStringView> {
    Seq::new(gs.len(), |i: int| gs[i]@)
}

/// A module: its name, its functions and its string constants, each in the
/// order of creation.
#[derive(Debug, PartialEq, Eq)]
pub struct Module {
    pub name: String,
    pub functions: Vec<Function>,
    pub strings: Vec<GlobalString>,
}

/// A module, with everything in it as sequences.
pub struct ModuleView {
    pub name: Seq<char>,
    pub functions: Seq<FunctionView>,
    pub strings: Seq<GlobalStringView>,
}

impl View for Module {
    type V = ModuleView;

    open spec fn view(&self) -> ModuleView {
        ModuleView {
            name: self.name@,
            functions: function_views(self.functions@),
            strings: string_views(self.strings@),
        }
    }
}

impl ModuleView {
    /// The module with nothing in it.
    pub open spec fn empty(name: Seq<char>) -> ModuleView {
        ModuleView { name, functions: Seq::empty(), strings: Seq::empty() }
    }

    /// The module with one more function.
    pub open spec fn with_function(self, f: FunctionView) -> ModuleView {
        ModuleView { functions: self.functions.push(f), ..self }
    }

    /// The module with one more string constant.
    pub open spec fn with_string(self, value: Seq<char>, name: Seq<char>) -> ModuleView {
        ModuleView { strings: self.strings.push(GlobalStringView { value, name }), ..self }
    }

    /// Whether instructions can be emitted into function `func`: it is
    /// there and has a body.
    pub open spec fn building(self, func: int) -> bool {
        0 <= func < self.functions.len() && self.functions[func].body is Some
    }

    /// The handle of the next instruction emitted into function `func`.
    pub open spec fn next_value(self, func: int) -> Value {
        Value::Inst(func as usize, self.functions[func].body->Some_0.len() as usize)
    }

    /// The module with one more instruction at the end of function `func`,
    /// if that function is there.
    pub open spec fn with_inst(self, func: int, inst: InstView) -> ModuleView {
        if 0 <= func < self.functions.len() {
            ModuleView {
                functions: self.functions.update(func, self.functions[func].with_inst(inst)),
                ..self
            }
        } else {
            self
        }
    }
}

impl Module {
    /// A module with the given name and nothing in it.
    pub fn new(name: &str) -> (res: Module)
        ensures
            res@ == ModuleView::empty(name@),
    {
        let m = Module { name: name.to_owned(), functions: Vec::new(), strings: Vec::new() };
        assert(m@.functions =~= Seq::empty());
        assert(m@.strings =~= Seq::empty());
        m
    }

    /// Adds a function and returns its index. With `defined` it gets an
    /// empty body to emit into; without, it is only declared.
    pub fn add_function(
        &mut self,
        name: String,
        ret: PrimTy,
        params: Vec<PrimTy>,
        vararg: bool,
        defined: bool,
    ) -> (res: usize)
        ensures
            res == old(self)@.functions.len(),
            final(self)@ == old(self)@.with_function(
                FunctionView {
                    name: name@,
                    ret,
                    params: params@,
                    vararg,
                    body: if defined {
                        Some(Seq::empty())
                    } else {
                        None
                    },
                },
            ),
    {
        let index = self.functions.len();
        let body: Option<Vec<Inst>> = if defined {
            Some(Vec::new())
        } else {
            None
        };
        let f = Function { name, ret, params, vararg, body };
        proof {
            if defined {
                assert(f@.body->Some_0 =~= Seq::empty());
            }
        }
        self.functions.push(f);
        assert(self@.functions =~= old(self)@.functions.push(f@));
        index
    }

    /// Adds a string constant and returns the handle to it.
    pub fn add_string(&mut self, value: String, name: String) -> (res: Value)
        ensures
            res == Value::Global(old(self)@.strings.len() as usize),
            final(self)@ == old(self)@.with_string(value@, name@),
    {
        let index = self.strings.len();
        self.strings.push(GlobalString { value, name });
        assert(self@.strings =~= old(self)@.strings.push(
            GlobalStringView { value: value@, name: name@ },
        ));
        Value::Global(index)
    }

    /// Whether instructions can be emitted into function `func`.
    pub fn is_building(&self, func: usize) -> (res: bool)
        ensures
            res == self@.building(func as int),
    {
        func < self.functions.len() && self.functions[func].body.is_some()
    }

    /// Puts `inst` at the end of function `func` and returns the handle to
    /// its value.
    pub fn emit(&mut self, func: usize, inst: Inst) -> (res: Value)
        requires
            old(self)@.building(func as int),
        ensures
            res == old(self)@.next_value(func as int),
            final(self)@ == old(self)@.with_inst(func as int, inst@),
            forall|f: int| old(self)@.building(f) ==> final(self)@.building(f),
    {
        let f = &mut self.functions[func];
        let mut index: usize = 0;
        match &mut f.body {
            Some(insts) => {
                index = insts.len();
                insts.push(inst);
            },
            None => {},
        }
        proof {
            let before = old(self).functions@[func as int];
            let after = self.functions@[func as int];
            assert(after@.body->Some_0 =~= before@.body->Some_0.push(inst@));
            assert(self@.functions =~= old(self)@.functions.update(
                func as int,
                before@.with_inst(inst@),
            ));
        }
        Value::Inst(func, index)
    }

    /// Whether function `func` is there and its body ends with a return.
    pub fn is_terminated(&self, func: usize) -> (res: bool)
        ensures
            res == (func < self@.functions.len() && self@.functions[func as int].is_terminated()),
    {
        if func >= self.functions.len() {
            return false;
        }
        match &self.functions[func].body {
            Some(insts) => {
                let n = insts.len();
                if n == 0 {
                    false
                } else {
                    match &insts[n - 1] {
                        Inst::Ret(_) => true,
                        _ => false,
                    }
                }
            },
            None => false,
        }
    }
}

} // verus!
