//! Functions: argument requirements, byte-compiled functions and the
//! descriptors of built-in subroutines.
use crate::error::{ArgError, Error, ErrorView};
use crate::gc::mark::GcMark;
use crate::gc::trace::{GcState, Trace};
use crate::object::tagged::GcObj;
use vstd::prelude::*;
use vstd::string::StringExecFns;

verus! {

/// Argument requirements of a function.
#[derive(Copy, Clone, Debug, PartialEq, Eq, Structural)]
pub struct FnArgs {
    /// Whether surplus arguments are collected in a `&rest` parameter.
    pub rest: bool,
    /// Number of required arguments.
    pub required: u16,
    /// Number of `&optional` arguments.
    pub optional: u16,
    /// Whether the function is advised.
    pub advice: bool,
}

impl FnArgs {
    /// Number of positional parameters: required and optional together.
    pub open spec fn total(self) -> int {
        self.required + self.optional
    }

    /// Whether a call with `args` arguments has an acceptable arity.
    pub open spec fn accepts(self, args: int) -> bool {
        self.required <= args && (self.rest || args <= self.total())
    }

    /// Number of `nil`s that pad a call with `args` arguments up to the
    /// positional parameters.
    pub open spec fn fill(self, args: int) -> int {
        if args >= self.total() {
            0
        } else {
            self.total() - args
        }
    }

    /// The arity that the error names when `args` arguments are not
    /// acceptable: the required count if there are too few, the number of
    /// positional parameters if there are too many.
    pub open spec fn wanted(self, args: int) -> int {
        if args < self.required {
            self.required as int
        } else {
            self.total()
        }
    }

    /// Number of arguments needed to fill out the remaining parameter
    /// slots. With 3 required and 2 optional parameters, a call with 4
    /// arguments yields 1: one more `nil` has to be supplied.
    pub fn num_of_fill_args(self, args: u16, name: &str) -> (res: Result<u16, Error>)
        ensures
            match res {
                Ok(n) => self.accepts(args as int) && n == self.fill(args as int),
                Err(e) => !self.accepts(args as int) && e@ == (ErrorView::Arg {
                    expected: self.wanted(args as int),
                    actual: args as int,
                    name: name@,
                }),
            },
    {
        if args < self.required {
            return Err(
                Error::Arg(
                    ArgError {
                        expected: self.required as usize,
                        actual: args as usize,
                        name: String::from_str(name),
                    },
                ),
            );
        }
        let total: u32 = self.required as u32 + self.optional as u32;
        if !self.rest && args as u32 > total {
            return Err(
                Error::Arg(
                    ArgError {
                        expected: total as usize,
                        actual: args as usize,
                        name: String::from_str(name),
                    },
                ),
            );
        }
        if args as u32 >= total {
            Ok(0)
        } else {
            Ok((total - args as u32) as u16)
        }
    }
}

/// The padding never exceeds the optional parameters, and a call that is
/// acceptable without `&rest` and fills every positional parameter needs
/// none.
pub proof fn lemma_fill_bounds(spec: FnArgs, args: int)
    requires
        spec.accepts(args),
    ensures
        0 <= spec.fill(args) <= spec.optional,
        args + spec.fill(args) >= spec.total(),
        !spec.rest ==> args + spec.fill(args) == spec.total(),
        args >= spec.total() ==> spec.fill(args) == 0,
{
}

/// The op-codes of a byte-compiled function.
#[derive(Debug)]
pub struct CodeVec(pub Vec<u8>);

/// The body of a byte-compiled function, or of any top-level expression:
/// its op-codes and the constants they refer to.
#[derive(Debug)]
pub struct Expression {
    /// Raw bytes; the collector does not look at them.
    pub op_codes: CodeVec,
    pub constants: Vec<GcObj>,
}

impl Expression {
    /// A body made of the given op-codes and constants.
    pub fn new(op_codes: CodeVec, consts: Vec<GcObj>) -> (e: Expression)
        ensures
            e.op_codes == op_codes,
            e.constants == consts,
    {
        Expression { op_codes, constants: consts }
    }

    /// The constants.
    pub fn constants(&self) -> (c: &Vec<GcObj>)
        ensures
            c == self.constants,
    {
        &self.constants
    }
}

impl Trace for Expression {
    open spec fn refs(&self) -> Set<GcObj> {
        self.constants.refs()
    }

    /// The constants, first to last; not the op-codes.
    open spec fn trail(&self) -> Seq<GcObj> {
        self.constants@
    }

    open spec fn ordered(&self) -> bool {
        true
    }

    fn trace(&self, state: &mut GcState) {
        self.constants.trace(state);
        proof {
            crate::gc::trace::lemma_objs_trail(self.constants@, self.constants@.len() as int);
            assert(self.constants@.take(self.constants@.len() as int) =~= self.constants@);
        }
    }
}

/// A function implemented in Lisp, in its byte-compiled form.
#[derive(Debug)]
pub struct LispFn {
    pub gc: GcMark,
    pub body: Expression,
    pub args: FnArgs,
}

impl LispFn {
    /// A fresh, unmarked function.
    pub fn new(op_codes: CodeVec, consts: Vec<GcObj>, args: FnArgs) -> (f: LispFn)
        ensures
            f.gc.bits == 0,
            f.body.op_codes == op_codes,
            f.body.constants == consts,
            f.args == args,
    {
        LispFn { gc: GcMark::new(), body: Expression::new(op_codes, consts), args }
    }

    /// Clears the visited bit.
    pub fn unmark(&mut self)
        ensures
            final(self).gc == old(self).gc.with_mark(false),
            final(self).body == old(self).body,
            final(self).args == old(self).args,
    {
        self.gc.unmark();
    }

    /// Whether the function was visited in the current mark phase.
    pub fn is_marked(&self) -> (b: bool)
        ensures
            b == self.gc.marked(),
    {
        self.gc.is_marked()
    }

    /// Sets the visited bit and puts the constants on the work stack.
    pub fn mark(&mut self, state: &mut GcState)
        ensures
            final(self).gc == old(self).gc.with_mark(true),
            final(self).body == old(self).body,
            final(self).args == old(self).args,
            crate::gc::trace::traced(old(state)@, final(state)@, old(self).refs()),
            crate::gc::trace::trailed(old(state)@, final(state)@, old(self).trail(), true),
    {
        self.gc.mark();
        self.body.trace(state);
    }
}

impl Trace for LispFn {
    open spec fn refs(&self) -> Set<GcObj> {
        self.body.refs()
    }

    open spec fn trail(&self) -> Seq<GcObj> {
        self.body.trail()
    }

    open spec fn ordered(&self) -> bool {
        true
    }

    fn trace(&self, state: &mut GcState) {
        self.body.trace(state);
    }
}

/// The built-in subroutines, as a function cell names them.
#[derive(Copy, Clone, Debug, PartialEq, Eq, Structural)]
pub enum BuiltIn {
    Eq,
    Equal,
    Eql,
    Logand,
    SetValue,
    Put,
    Get,
    Defvar,
    MakeVariableBufferLocal,
    Fset,
    Aset,
    Aref,
    Defalias,
    Provide,
    SymbolFunction,
    SymbolValue,
    SymbolName,
    Null,
    Fmakunbound,
    Fboundp,
    Boundp,
    Makunbound,
    DefaultBoundp,
    Listp,
    Nlistp,
    Stringp,
    Symbolp,
    Functionp,
    Subrp,
    Vectorp,
    Numberp,
    Markerp,
    Consp,
    Keywordp,
    Integerp,
    Atom,
    ByteCodeFunctionP,
    Bufferp,
    IndirectFunction,
    Apply,
    Funcall,
}

impl BuiltIn {
    /// Whether the subroutine calls a function that it is given: `apply`
    /// and `funcall` do.
    pub open spec fn calls(self) -> bool {
        self == BuiltIn::Apply || self == BuiltIn::Funcall
    }

    /// The argument requirements of the subroutine.
    pub open spec fn fn_args_spec(self) -> FnArgs {
        match self {
            BuiltIn::Logand => FnArgs { rest: true, required: 0, optional: 0, advice: false },
            BuiltIn::Apply | BuiltIn::Funcall => FnArgs {
                rest: true,
                required: 1,
                optional: 0,
                advice: false,
            },
            BuiltIn::Put | BuiltIn::Aset => FnArgs {
                rest: false,
                required: 3,
                optional: 0,
                advice: false,
            },
            BuiltIn::Eq
            | BuiltIn::Equal
            | BuiltIn::Eql
            | BuiltIn::SetValue
            | BuiltIn::Get
            | BuiltIn::Fset
            | BuiltIn::Aref => FnArgs { rest: false, required: 2, optional: 0, advice: false },
            BuiltIn::Defalias => FnArgs { rest: false, required: 2, optional: 1, advice: false },
            BuiltIn::Defvar => FnArgs { rest: false, required: 1, optional: 2, advice: false },
            BuiltIn::Provide => FnArgs { rest: false, required: 1, optional: 1, advice: false },
            _ => FnArgs { rest: false, required: 1, optional: 0, advice: false },
        }
    }

    /// The argument requirements of the subroutine.
    pub fn fn_args(self) -> (a: FnArgs)
        ensures
            a == self.fn_args_spec(),
    {
        match self {
            BuiltIn::Logand => FnArgs { rest: true, required: 0, optional: 0, advice: false },
            BuiltIn::Apply | BuiltIn::Funcall => FnArgs {
                rest: true,
                required: 1,
                optional: 0,
                advice: false,
            },
            BuiltIn::Put | BuiltIn::Aset => FnArgs {
                rest: false,
                required: 3,
                optional: 0,
                advice: false,
            },
            BuiltIn::Eq
            | BuiltIn::Equal
            | BuiltIn::Eql
            | BuiltIn::SetValue
            | BuiltIn::Get
            | BuiltIn::Fset
            | BuiltIn::Aref => FnArgs { rest: false, required: 2, optional: 0, advice: false },
            BuiltIn::Defalias => FnArgs { rest: false, required: 2, optional: 1, advice: false },
            BuiltIn::Defvar => FnArgs { rest: false, required: 1, optional: 2, advice: false },
            BuiltIn::Provide => FnArgs { rest: false, required: 1, optional: 1, advice: false },
            _ => FnArgs { rest: false, required: 1, optional: 0, advice: false },
        }
    }

    /// The name under which the subroutine is known in Lisp.
    pub open spec fn name_spec(self) -> Seq<char> {
        match self {
            BuiltIn::Eq => "eq"@,
            BuiltIn::Equal => "equal"@,
            BuiltIn::Eql => "eql"@,
            BuiltIn::Logand => "logand"@,
            BuiltIn::SetValue => "set"@,
            BuiltIn::Put => "put"@,
            BuiltIn::Get => "get"@,
            BuiltIn::Defvar => "defvar"@,
            BuiltIn::MakeVariableBufferLocal => "make-variable-buffer-local"@,
            BuiltIn::Fset => "fset"@,
            BuiltIn::Aset => "aset"@,
            BuiltIn::Aref => "aref"@,
            BuiltIn::Defalias => "defalias"@,
            BuiltIn::Provide => "provide"@,
            BuiltIn::SymbolFunction => "symbol-function"@,
            BuiltIn::SymbolValue => "symbol-value"@,
            BuiltIn::SymbolName => "symbol-name"@,
            BuiltIn::Null => "null"@,
            BuiltIn::Fmakunbound => "fmakunbound"@,
            BuiltIn::Fboundp => "fboundp"@,
            BuiltIn::Boundp => "boundp"@,
            BuiltIn::Makunbound => "makunbound"@,
            BuiltIn::DefaultBoundp => "default-boundp"@,
            BuiltIn::Listp => "listp"@,
            BuiltIn::Nlistp => "nlistp"@,
            BuiltIn::Stringp => "stringp"@,
            BuiltIn::Symbolp => "symbolp"@,
            BuiltIn::Functionp => "functionp"@,
            BuiltIn::Subrp => "subrp"@,
            BuiltIn::Vectorp => "vectorp"@,
            BuiltIn::Numberp => "numberp"@,
            BuiltIn::Markerp => "markerp"@,
            BuiltIn::Consp => "consp"@,
            BuiltIn::Keywordp => "keywordp"@,
            BuiltIn::Integerp => "integerp"@,
            BuiltIn::Atom => "atom"@,
            BuiltIn::ByteCodeFunctionP => "byte-code-function-p"@,
            BuiltIn::Bufferp => "bufferp"@,
            BuiltIn::IndirectFunction => "indirect-function"@,
            BuiltIn::Apply => "apply"@,
            BuiltIn::Funcall => "funcall"@,
        }
    }

    /// The name under which the subroutine is known in Lisp.
    pub fn name(self) -> (n: &'static str)
        ensures
            n@ == self.name_spec(),
    {
        match self {
            BuiltIn::Eq => "eq",
            BuiltIn::Equal => "equal",
            BuiltIn::Eql => "eql",
            BuiltIn::Logand => "logand",
            BuiltIn::SetValue => "set",
            BuiltIn::Put => "put",
            BuiltIn::Get => "get",
            BuiltIn::Defvar => "defvar",
            BuiltIn::MakeVariableBufferLocal => "make-variable-buffer-local",
            BuiltIn::Fset => "fset",
            BuiltIn::Aset => "aset",
            BuiltIn::Aref => "aref",
            BuiltIn::Defalias => "defalias",
            BuiltIn::Provide => "provide",
            BuiltIn::SymbolFunction => "symbol-function",
            BuiltIn::SymbolValue => "symbol-value",
            BuiltIn::SymbolName => "symbol-name",
            BuiltIn::Null => "null",
            BuiltIn::Fmakunbound => "fmakunbound",
            BuiltIn::Fboundp => "fboundp",
            BuiltIn::Boundp => "boundp",
            BuiltIn::Makunbound => "makunbound",
            BuiltIn::DefaultBoundp => "default-boundp",
            BuiltIn::Listp => "listp",
            BuiltIn::Nlistp => "nlistp",
            BuiltIn::Stringp => "stringp",
            BuiltIn::Symbolp => "symbolp",
            BuiltIn::Functionp => "functionp",
            BuiltIn::Subrp => "subrp",
            BuiltIn::Vectorp => "vectorp",
            BuiltIn::Numberp => "numberp",
            BuiltIn::Markerp => "markerp",
            BuiltIn::Consp => "consp",
            BuiltIn::Keywordp => "keywordp",
            BuiltIn::Integerp => "integerp",
            BuiltIn::Atom => "atom",
            BuiltIn::ByteCodeFunctionP => "byte-code-function-p",
            BuiltIn::Bufferp => "bufferp",
            BuiltIn::IndirectFunction => "indirect-function",
            BuiltIn::Apply => "apply",
            BuiltIn::Funcall => "funcall",
        }
    }
}

/// The descriptor of a built-in subroutine.
#[derive(Clone, Copy, Debug)]
pub struct SubrFn {
    pub gc: GcMark,
    /// The native implementation.
    pub subr: BuiltIn,
    pub args: FnArgs,
    pub name: &'static str,
}

impl SubrFn {
    /// The descriptor of a built-in subroutine, with the argument
    /// requirements and the name that belong to it.
    pub fn of(subr: BuiltIn) -> (f: SubrFn)
        ensures
            f.gc.bits == 0,
            f.subr == subr,
            f.args == subr.fn_args_spec(),
            f.name@ == subr.name_spec(),
    {
        SubrFn { gc: GcMark::new(), subr, args: subr.fn_args(), name: subr.name() }
    }

    /// A fresh, unmarked descriptor.
    pub fn new(subr: BuiltIn, args: FnArgs, name: &'static str) -> (f: SubrFn)
        ensures
            f.gc.bits == 0,
            f.subr == subr,
            f.args == args,
            f.name == name,
    {
        SubrFn { gc: GcMark::new(), subr, args, name }
    }
}

impl PartialEq for SubrFn {
    /// Two descriptors are equal when they name the same native
    /// implementation.
    fn eq(&self, other: &Self) -> (b: bool) {
        self.subr == other.subr
    }
}

impl vstd::std_specs::cmp::PartialEqSpecImpl for SubrFn {
    open spec fn obeys_eq_spec() -> bool {
        true
    }

    open spec fn eq_spec(&self, other: &Self) -> bool {
        self.subr == other.subr
    }
}

impl Trace for SubrFn {
    open spec fn refs(&self) -> Set<GcObj> {
        Set::empty()
    }

    open spec fn trail(&self) -> Seq<GcObj> {
        Seq::empty()
    }

    open spec fn ordered(&self) -> bool {
        true
    }

    fn trace(&self, state: &mut GcState) {
        proof {
            crate::gc::trace::lemma_trailed_none(state@);
        }
    }
}

} // verus!
