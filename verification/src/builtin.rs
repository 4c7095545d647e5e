//! The built-in subroutines as a call reaches them: with their arguments
//! in a vector of values, converted one by one to what the primitive
//! takes.
use crate::data::{aref, aref_spec, aset, boundp, default_boundp, defvar, eq, eql, eql_spec, equal, fboundp, fmakunbound, fset, fset_cell, get, indirect_function, indirect_spec, keyword_name, keywordp, logand, make_variable_buffer_local, makunbound, provide, put, symbol_function, symbol_name, symbol_value};
use crate::env::{plist_get, plist_put};
use crate::error::{Error, ErrorView, Type};
use crate::gc::context::{collected, inserted, Context};
use crate::gc::trace::Trace;
use crate::gc::mark::GcMark;
use crate::gc::root::Root;
use crate::list::copy_objs;
use crate::object::boxed::{HeapObject, LispString};
use crate::object::func::BuiltIn;
use crate::object::tagged::{Function, GcObj, Object, Symbol, Tag};
use crate::structure::equal_spec;
use vstd::prelude::*;
use vstd::string::StringExecFns;

verus! {

/// Argument `i` of a call; `nil` if the call has no such argument.
pub open spec fn arg_spec(argv: Seq<GcObj>, i: int) -> GcObj {
    if 0 <= i < argv.len() {
        argv[i]
    } else {
        GcObj::nil_spec()
    }
}

/// Argument `i` of a call; `nil` if the call has no such argument.
pub fn arg(argv: &Vec<GcObj>, i: usize) -> (o: GcObj)
    ensures
        o == arg_spec(argv@, i as int),
{
    if i < argv.len() {
        argv[i]
    } else {
        GcObj::nil_obj()
    }
}

/// The error for a value that is not of the type `expected`.
pub open spec fn type_err(expected: Type, o: GcObj) -> ErrorView {
    ErrorView::Type { expected, found: o.tag_spec() }
}

/// Whether nothing but the roots may differ between two states.
pub open spec fn unchanged(before: &Context, after: &Context) -> bool {
    &&& after.block == before.block
    &&& after.symbols == before.symbols
    &&& after.env == before.env
    &&& after.features == before.features
    &&& after.threshold == before.threshold
}

/// Whether a subroutine that changes nothing has answered `v`.
pub open spec fn answers(
    before: &Context,
    after: &Context,
    res: Result<GcObj, Error>,
    v: Result<GcObj, ErrorView>,
) -> bool {
    &&& unchanged(before, after)
    &&& match v {
        Ok(x) => res matches Ok(y) && y == x,
        Err(e) => res matches Err(x) && x@ == e,
    }
}

/// The index that a value stands for: an integer that is not negative,
/// cut off at the largest index there is.
pub open spec fn index_arg(o: GcObj) -> Result<usize, ErrorView> {
    match o@ {
        Object::Int(i) => if i < 0 {
            Err(type_err(Type::Natural, o))
        } else if i > usize::MAX {
            Ok(usize::MAX)
        } else {
            Ok(i as usize)
        },
        _ => Err(type_err(Type::Int, o)),
    }
}

/// The index that a value stands for.
pub fn want_index(o: GcObj) -> (r: Result<usize, Error>)
    ensures
        match r {
            Ok(i) => index_arg(o) == Ok::<usize, ErrorView>(i),
            Err(e) => index_arg(o) == Err::<usize, ErrorView>(e@),
        },
{
    match o.get() {
        Object::Int(i) => {
            if i < 0 {
                Err(Error::type_error(Type::Natural, Tag::Int))
            } else if i as u64 > usize::MAX as u64 {
                Ok(usize::MAX)
            } else {
                Ok(i as usize)
            }
        },
        other => Err(Error::type_error(Type::Int, other.tag())),
    }
}

/// The first of the values that is not an integer, as an error; nothing
/// if all are integers.
pub open spec fn ints_arg(argv: Seq<GcObj>) -> Option<ErrorView>
    decreases argv.len(),
{
    if argv.len() == 0 {
        None
    } else if argv[0].tag_spec() != Tag::Int {
        Some(type_err(Type::Int, argv[0]))
    } else {
        ints_arg(argv.skip(1))
    }
}

/// The integers in the values; fails at the first that is not one.
pub fn want_ints(argv: &Vec<GcObj>) -> (r: Result<Vec<i64>, Error>)
    ensures
        match r {
            Ok(v) => ints_arg(argv@) is None && v@.len() == argv@.len() && forall|i: int|
                0 <= i < v@.len() ==> argv@[i]@ == Object::Int(#[trigger] v@[i]),
            Err(e) => ints_arg(argv@) == Some(e@),
        },
{
    let mut out: Vec<i64> = Vec::new();
    let mut i: usize = 0;
    assert(argv@.skip(0) =~= argv@);
    while i < argv.len()
        invariant
            i <= argv.len(),
            out@.len() == i,
            ints_arg(argv@) == ints_arg(argv@.skip(i as int)),
            forall|k: int| 0 <= k < i ==> argv@[k]@ == Object::Int(#[trigger] out@[k]),
        decreases argv.len() - i,
    {
        assert(argv@.skip(i as int).skip(1) =~= argv@.skip(i + 1));
        assert(argv@.skip(i as int)[0] == argv@[i as int]);
        match argv[i].as_int() {
            Ok(x) => {
                out.push(x);
            },
            Err(e) => {
                return Err(e);
            },
        }
        i += 1;
    }
    Ok(out)
}

/// What a predicate on one value decides.
pub open spec fn predicate_spec(subr: BuiltIn, o: GcObj) -> bool {
    match subr {
        BuiltIn::Null => o == GcObj::nil_spec(),
        BuiltIn::Listp => o == GcObj::nil_spec() || o.tag_spec() == Tag::Cons,
        BuiltIn::Nlistp => !(o == GcObj::nil_spec() || o.tag_spec() == Tag::Cons),
        BuiltIn::Stringp => o.tag_spec() == Tag::String,
        BuiltIn::Symbolp => o.tag_spec() == Tag::Symbol,
        BuiltIn::Functionp => o.tag_spec() == Tag::LispFn || o.tag_spec() == Tag::SubrFn,
        BuiltIn::Subrp => o.tag_spec() == Tag::SubrFn,
        BuiltIn::Vectorp => o.tag_spec() == Tag::Vec,
        BuiltIn::Numberp => o.tag_spec() == Tag::Int || o.tag_spec() == Tag::Float,
        BuiltIn::Consp => o.tag_spec() == Tag::Cons,
        BuiltIn::Integerp => o.tag_spec() == Tag::Int,
        BuiltIn::Atom => o.tag_spec() != Tag::Cons,
        _ => false,
    }
}

/// Whether the subroutine is a predicate on one value that looks at
/// nothing but the value.
pub open spec fn is_predicate(subr: BuiltIn) -> bool {
    match subr {
        BuiltIn::Null
        | BuiltIn::Listp
        | BuiltIn::Nlistp
        | BuiltIn::Stringp
        | BuiltIn::Symbolp
        | BuiltIn::Functionp
        | BuiltIn::Subrp
        | BuiltIn::Vectorp
        | BuiltIn::Numberp
        | BuiltIn::Markerp
        | BuiltIn::Consp
        | BuiltIn::Integerp
        | BuiltIn::Atom
        | BuiltIn::ByteCodeFunctionP
        | BuiltIn::Bufferp => true,
        _ => false,
    }
}

/// What a subroutine answers that takes a symbol and changes nothing.
pub open spec fn symbol_query_spec(subr: BuiltIn, cx: &Context, s: Symbol) -> GcObj {
    match subr {
        BuiltIn::SymbolFunction => match cx.symbols@[s.id as int].func {
            Some(f) => f,
            None => GcObj::nil_spec(),
        },
        BuiltIn::SymbolValue => match cx.env.var(s) {
            Some(v) => v,
            None => GcObj::nil_spec(),
        },
        BuiltIn::Fboundp => GcObj::bool_spec(cx.symbols@[s.id as int].func is Some),
        BuiltIn::Boundp | BuiltIn::DefaultBoundp => GcObj::bool_spec(cx.env.var(s) is Some),
        _ => Object::Symbol(s).encode(),
    }
}

/// Whether the subroutine takes a symbol and changes nothing.
pub open spec fn is_symbol_query(subr: BuiltIn) -> bool {
    match subr {
        BuiltIn::SymbolFunction
        | BuiltIn::SymbolValue
        | BuiltIn::Fboundp
        | BuiltIn::Boundp
        | BuiltIn::DefaultBoundp
        | BuiltIn::MakeVariableBufferLocal => true,
        _ => false,
    }
}

/// The effect of binding the variable `s` to `v`.
pub open spec fn set_effect(before: &Context, after: &Context, s: Symbol, v: GcObj) -> bool {
    &&& after.block == before.block
    &&& after.symbols == before.symbols
    &&& after.features == before.features
    &&& after.threshold == before.threshold
    &&& after.env.props == before.env.props
    &&& after.env.var(s) == Some(v)
    &&& forall|x: Symbol| x != s ==> after.env.var(x) == before.env.var(x)
}

/// The effect of unbinding the variable `s`.
pub open spec fn unset_effect(before: &Context, after: &Context, s: Symbol) -> bool {
    &&& after.block == before.block
    &&& after.symbols == before.symbols
    &&& after.features == before.features
    &&& after.threshold == before.threshold
    &&& after.env.props == before.env.props
    &&& after.env.var(s) is None
    &&& forall|x: Symbol| x != s ==> after.env.var(x) == before.env.var(x)
}

/// The effect of giving the property `name` of `s` the value `v`.
pub open spec fn put_effect(
    before: &Context,
    after: &Context,
    s: Symbol,
    name: Symbol,
    v: GcObj,
) -> bool {
    &&& after.block == before.block
    &&& after.symbols == before.symbols
    &&& after.features == before.features
    &&& after.threshold == before.threshold
    &&& after.env.vars == before.env.vars
    &&& after.env.plist(s) == plist_put(before.env.plist(s), name, v)
    &&& forall|x: Symbol| x != s ==> after.env.plist(x) == before.env.plist(x)
}

/// The effect of putting `cell` into the function cell of `s`.
pub open spec fn func_effect(
    before: &Context,
    after: &Context,
    s: Symbol,
    cell: Option<GcObj>,
) -> bool {
    &&& after.block == before.block
    &&& after.env == before.env
    &&& after.features == before.features
    &&& after.threshold == before.threshold
    &&& after.symbols@.len() == before.symbols@.len()
    &&& after.symbols@[s.id as int].func == cell
    &&& after.symbols.name_of(s) == before.symbols.name_of(s)
    &&& forall|i: int|
        0 <= i < before.symbols@.len() && i != s.id ==> after.symbols@[i] == before.symbols@[i]
}

/// What `fset` and `defalias` do with a symbol and a definition.
pub open spec fn fset_post(
    before: &Context,
    after: &Context,
    res: Result<GcObj, Error>,
    s: Symbol,
    definition: GcObj,
) -> bool {
    if definition == GcObj::nil_spec() || Function::is_function(definition@) {
        &&& res matches Ok(v)
        &&& v@ == Object::Symbol(s)
        &&& func_effect(before, after, s, fset_cell(definition))
    } else {
        &&& res matches Err(e)
        &&& e@ == type_err(Type::Func, definition)
        &&& after.block == before.block
        &&& after.env == before.env
        &&& after.features == before.features
        &&& after.threshold == before.threshold
        &&& after.symbols@ == before.symbols@
    }
}

/// What a docstring argument may be: `nil` or a string.
pub open spec fn docstring_arg(o: GcObj) -> Option<ErrorView> {
    if o == GcObj::nil_spec() || o.tag_spec() == Tag::String {
        None
    } else {
        Some(type_err(Type::String, o))
    }
}

/// What a docstring argument may be: `nil` or a string.
pub fn want_docstring(o: GcObj) -> (r: Result<(), Error>)
    ensures
        match r {
            Ok(_) => docstring_arg(o) is None,
            Err(e) => docstring_arg(o) == Some(e@),
        },
{
    if o.nil() {
        Ok(())
    } else {
        match o.as_string() {
            Ok(_) => Ok(()),
            Err(e) => Err(e),
        }
    }
}

/// What the subfeatures argument of `provide` may be: `nil` or a cons
/// cell.
pub open spec fn subfeatures_arg(o: GcObj) -> Option<ErrorView> {
    if o == GcObj::nil_spec() || o.tag_spec() == Tag::Cons {
        None
    } else {
        Some(type_err(Type::Cons, o))
    }
}

/// The text of the message with which an allocation fails in a full
/// arena.
pub open spec fn exhausted_message() -> Seq<char> {
    "arena exhausted"@
}

/// The error with which an allocation fails in a full arena.
pub fn exhausted() -> (e: Error)
    ensures
        e@ == (ErrorView::Misc { message: exhausted_message() }),
{
    Error::Misc { message: String::from_str("arena exhausted") }
}

/// The value that a subroutine handed back, if it did not fail.
pub open spec fn value_of(res: Result<GcObj, Error>) -> Option<GcObj> {
    match res {
        Ok(v) => Some(v),
        Err(_) => None,
    }
}

/// Whether `after` is the arena of `before` after the allocation of a
/// string with the given text that returned `r`, at a time when the root
/// slots held the references `rooted`: the string stands in a slot that
/// was empty on the heap that the allocation found or, if a collection
/// was due, left.
pub open spec fn string_added(
    before: &Context,
    rooted: Set<GcObj>,
    after: &Context,
    text: String,
    r: Option<GcObj>,
) -> bool {
    let obj = HeapObject::String(LispString { gc: GcMark { bits: 0 }, text });
    let seeds = rooted.union(before.symbols.refs()).union(before.env.refs()).union(obj.refs());
    let base = if before.collection_due() {
        collected(before.block@, seeds)
    } else {
        before.block@
    };
    match r {
        Some(g) => {
            &&& g.tag_spec() == Tag::String
            &&& g.target() matches Some(i)
            &&& inserted(base, i, obj.with_mark(false), after.block@)
        },
        None => after.block@ == base && after.block.full(),
    }
}

/// What `symbol-name` does: it allocates a string with the name of the
/// symbol. It fails only in a full arena.
pub open spec fn symbol_name_post(
    before: &Context,
    rooted: Set<GcObj>,
    after: &Context,
    res: Result<GcObj, Error>,
    s: Symbol,
) -> bool {
    &&& after.symbols == before.symbols
    &&& after.env == before.env
    &&& after.features == before.features
    &&& exists|text: String|
        text@ == before.symbols.name_of(s) && #[trigger] string_added(
            before,
            rooted,
            after,
            text,
            value_of(res),
        )
    &&& res matches Err(e) ==> e@ == (ErrorView::Misc { message: exhausted_message() })
}

/// What the subroutine `subr` does when it is invoked with the arguments
/// `argv` in the state `before`, while the root slots hold the references
/// `rooted`: the state `after` in which it leaves the context, and what
/// it hands back. Arguments are converted in order, and
/// the first that does not convert is the error; nothing has changed
/// then.
pub open spec fn native_post(
    subr: BuiltIn,
    argv: Seq<GcObj>,
    before: &Context,
    rooted: Set<GcObj>,
    after: &Context,
    res: Result<GcObj, Error>,
) -> bool {
    let a0 = arg_spec(argv, 0);
    let a1 = arg_spec(argv, 1);
    let a2 = arg_spec(argv, 2);
    let h = before.block@;
    if is_predicate(subr) {
        answers(before, after, res, Ok(GcObj::bool_spec(predicate_spec(subr, a0))))
    } else if is_symbol_query(subr) {
        answers(
            before,
            after,
            res,
            match a0@ {
                Object::Symbol(s) => Ok(symbol_query_spec(subr, before, s)),
                _ => Err(type_err(Type::Symbol, a0)),
            },
        )
    } else {
        match subr {
            BuiltIn::Eq => answers(before, after, res, Ok(GcObj::bool_spec(a0 == a1))),
            BuiltIn::Equal => answers(
                before,
                after,
                res,
                Ok(GcObj::bool_spec(equal_spec(h, a0, a1, h.len()))),
            ),
            BuiltIn::Eql => answers(before, after, res, Ok(GcObj::bool_spec(eql_spec(h, a0, a1)))),
            BuiltIn::Logand => answers(
                before,
                after,
                res,
                match ints_arg(argv) {
                    None => Ok(Object::Int(0).encode()),
                    Some(e) => Err(e),
                },
            ),
            BuiltIn::Keywordp => answers(
                before,
                after,
                res,
                Ok(
                    GcObj::bool_spec(
                        a0@ matches Object::Symbol(s) && keyword_name(before.symbols.name_of(s)),
                    ),
                ),
            ),
            BuiltIn::IndirectFunction => answers(
                before,
                after,
                res,
                Ok(indirect_spec(before, a0).encode()),
            ),
            BuiltIn::Get => answers(
                before,
                after,
                res,
                match (a0@, a1@) {
                    (Object::Symbol(s), Object::Symbol(p)) => Ok(
                        match plist_get(before.env.plist(s), p) {
                            Some(v) => v,
                            None => GcObj::nil_spec(),
                        },
                    ),
                    (Object::Symbol(_), _) => Err(type_err(Type::Symbol, a1)),
                    _ => Err(type_err(Type::Symbol, a0)),
                },
            ),
            BuiltIn::Aref => answers(
                before,
                after,
                res,
                match index_arg(a1) {
                    Ok(idx) => match aref_spec(h, a0, idx) {
                        Ok(v) => Ok(v.encode()),
                        Err(e) => Err(e),
                    },
                    Err(e) => Err(e),
                },
            ),
            BuiltIn::SetValue => match a0@ {
                Object::Symbol(s) => (res matches Ok(v) && v == a1) && set_effect(
                    before,
                    after,
                    s,
                    a1,
                ),
                _ => answers(before, after, res, Err(type_err(Type::Symbol, a0))),
            },
            BuiltIn::Put => match (a0@, a1@) {
                (Object::Symbol(s), Object::Symbol(p)) => (res matches Ok(v) && v == a2)
                    && put_effect(before, after, s, p, a2),
                (Object::Symbol(_), _) => answers(
                    before,
                    after,
                    res,
                    Err(type_err(Type::Symbol, a1)),
                ),
                _ => answers(before, after, res, Err(type_err(Type::Symbol, a0))),
            },
            BuiltIn::Defvar => match a0@ {
                Object::Symbol(s) => match docstring_arg(a2) {
                    None => if a1 != GcObj::nil_spec() && before.env.var(s) is None {
                        (res matches Ok(v) && v == a1) && set_effect(before, after, s, a1)
                    } else {
                        answers(before, after, res, Ok(a1))
                    },
                    Some(e) => answers(before, after, res, Err(e)),
                },
                _ => answers(before, after, res, Err(type_err(Type::Symbol, a0))),
            },
            BuiltIn::Fset => match a0@ {
                Object::Symbol(s) => fset_post(before, after, res, s, a1),
                _ => answers(before, after, res, Err(type_err(Type::Symbol, a0))),
            },
            BuiltIn::Defalias => match a0@ {
                Object::Symbol(s) => match docstring_arg(a2) {
                    None => fset_post(before, after, res, s, a1),
                    Some(e) => answers(before, after, res, Err(e)),
                },
                _ => answers(before, after, res, Err(type_err(Type::Symbol, a0))),
            },
            BuiltIn::Fmakunbound => match a0@ {
                Object::Symbol(s) => (res matches Ok(v) && v == a0) && func_effect(
                    before,
                    after,
                    s,
                    None,
                ),
                _ => answers(before, after, res, Err(type_err(Type::Symbol, a0))),
            },
            BuiltIn::Makunbound => match a0@ {
                Object::Symbol(s) => (res matches Ok(v) && v == a0) && unset_effect(
                    before,
                    after,
                    s,
                ),
                _ => answers(before, after, res, Err(type_err(Type::Symbol, a0))),
            },
            BuiltIn::Provide => match a0@ {
                Object::Symbol(s) => match subfeatures_arg(a1) {
                    None => {
                        &&& res matches Ok(v)
                        &&& v == a0
                        &&& after.block == before.block
                        &&& after.symbols == before.symbols
                        &&& after.env == before.env
                        &&& after.threshold == before.threshold
                        &&& after.features@ == before.features@.insert(s.id)
                    },
                    Some(e) => answers(before, after, res, Err(e)),
                },
                _ => answers(before, after, res, Err(type_err(Type::Symbol, a0))),
            },
            BuiltIn::Aset => match a0@ {
                Object::Vec(r) => match index_arg(a1) {
                    Ok(idx) => {
                        &&& after.symbols == before.symbols
                        &&& after.env == before.env
                        &&& after.features == before.features
                        &&& after.threshold == before.threshold
                        &&& after.block@.len() == before.block@.len()
                        &&& forall|i: int|
                            0 <= i < before.block@.len() && i != r.idx ==> after.block@[i]
                                == before.block@[i]
                        &&& after.block.live(r)
                        &&& after.block.obj(r) is Vec
                        &&& before.block.obj(r)->Vec_0.after_set(
                            idx,
                            a2,
                            after.block.obj(r)->Vec_0,
                            match res {
                                Ok(_) => None,
                                Err(e) => Some(e@),
                            },
                        )
                        &&& res matches Ok(v) ==> v == a2
                    },
                    Err(e) => answers(before, after, res, Err(e)),
                },
                _ => answers(before, after, res, Err(type_err(Type::Vec, a0))),
            },
            BuiltIn::SymbolName => match a0@ {
                Object::Symbol(s) => symbol_name_post(before, rooted, after, res, s),
                _ => answers(before, after, res, Err(type_err(Type::Symbol, a0))),
            },
            _ => true,
        }
    }
}

/// What a subroutine does depends on the state in which it is invoked
/// only through the arena, the symbols, the environment, the features
/// and the threshold: not through the roots.
pub proof fn lemma_native_post_frame(
    subr: BuiltIn,
    argv: Seq<GcObj>,
    a: &Context,
    b: &Context,
    rooted: Set<GcObj>,
    after: &Context,
    res: Result<GcObj, Error>,
)
    requires
        a.block == b.block,
        a.symbols == b.symbols,
        a.env == b.env,
        a.features == b.features,
        a.threshold == b.threshold,
        native_post(subr, argv, a, rooted, after, res),
    ensures
        native_post(subr, argv, b, rooted, after, res),
{
    let a0 = arg_spec(argv, 0);
    if subr == BuiltIn::SymbolName {
        match a0@ {
            Object::Symbol(s) => {
                let text = choose|text: String|
                    text@ == a.symbols.name_of(s) && #[trigger] string_added(
                        a,
                        rooted,
                        after,
                        text,
                        value_of(res),
                    );
                assert(string_added(b, rooted, after, text, value_of(res)));
            },
            _ => {},
        }
    }
}

/// Decides a predicate on one value.
fn predicate(subr: BuiltIn, o: GcObj) -> (b: bool)
    requires
        is_predicate(subr),
    ensures
        b == predicate_spec(subr, o),
{
    match subr {
        BuiltIn::Null => crate::data::null(o),
        BuiltIn::Listp => crate::data::listp(o),
        BuiltIn::Nlistp => crate::data::nlistp(o),
        BuiltIn::Stringp => crate::data::stringp(o),
        BuiltIn::Symbolp => crate::data::symbolp(o),
        BuiltIn::Functionp => crate::data::functionp(o),
        BuiltIn::Subrp => crate::data::subrp(o),
        BuiltIn::Vectorp => crate::data::vectorp(o),
        BuiltIn::Numberp => crate::data::numberp(o),
        BuiltIn::Markerp => crate::data::markerp(o),
        BuiltIn::Consp => crate::data::consp(o),
        BuiltIn::Integerp => crate::data::integerp(o),
        BuiltIn::Atom => crate::data::atom(o),
        BuiltIn::ByteCodeFunctionP => crate::data::byte_code_function_p(o),
        _ => crate::data::bufferp(o),
    }
}

/// Answers a subroutine that takes a symbol and changes nothing.
fn symbol_query(subr: BuiltIn, s: Symbol, cx: &Context) -> (o: GcObj)
    requires
        is_symbol_query(subr),
        cx.wf(),
        cx.symbols.contains(s),
    ensures
        o == symbol_query_spec(subr, cx, s),
        cx.valid(o),
{
    match subr {
        BuiltIn::SymbolFunction => symbol_function(s, cx),
        BuiltIn::SymbolValue => match symbol_value(s, cx) {
            Some(v) => v,
            None => GcObj::nil_obj(),
        },
        BuiltIn::Fboundp => GcObj::from_bool(fboundp(s, cx)),
        BuiltIn::Boundp => GcObj::from_bool(boundp(s, cx)),
        BuiltIn::DefaultBoundp => GcObj::from_bool(default_boundp(s, cx)),
        _ => GcObj::from_symbol(make_variable_buffer_local(s)),
    }
}

/// Invokes `eq` on the arguments `argv`.
fn do_eq(argv: &Vec<GcObj>, cx: &Context) -> (res: Result<GcObj, Error>)
    requires
        cx.wf(),
        cx.all_valid(argv@),
    ensures
        native_post(BuiltIn::Eq, argv@, cx, cx.roots.refs(), cx, res),
        res matches Ok(v) ==> cx.valid(v),
{
    let a0 = arg(argv, 0);
    let a1 = arg(argv, 1);
    Ok(GcObj::from_bool(eq(a0, a1)))
}

/// Invokes `equal` on the arguments `argv`.
fn do_equal(argv: &Vec<GcObj>, cx: &Context) -> (res: Result<GcObj, Error>)
    requires
        cx.wf(),
        cx.all_valid(argv@),
    ensures
        native_post(BuiltIn::Equal, argv@, cx, cx.roots.refs(), cx, res),
        res matches Ok(v) ==> cx.valid(v),
{
    let a0 = arg(argv, 0);
    let a1 = arg(argv, 1);
    Ok(GcObj::from_bool(equal(a0, a1, cx)))
}

/// Invokes `eql` on the arguments `argv`.
fn do_eql(argv: &Vec<GcObj>, cx: &Context) -> (res: Result<GcObj, Error>)
    requires
        cx.wf(),
        cx.all_valid(argv@),
    ensures
        native_post(BuiltIn::Eql, argv@, cx, cx.roots.refs(), cx, res),
        res matches Ok(v) ==> cx.valid(v),
{
    let a0 = arg(argv, 0);
    let a1 = arg(argv, 1);
    Ok(GcObj::from_bool(eql(a0, a1, cx)))
}

/// Invokes `logand` on the arguments `argv`.
fn do_logand(argv: &Vec<GcObj>, cx: &Context) -> (res: Result<GcObj, Error>)
    requires
        cx.wf(),
        cx.all_valid(argv@),
    ensures
        native_post(BuiltIn::Logand, argv@, cx, cx.roots.refs(), cx, res),
        res matches Ok(v) ==> cx.valid(v),
{
    match want_ints(argv) {
        Ok(ints) => Ok(Object::Int(logand(ints.as_slice())).into_obj()),
        Err(e) => Err(e),
    }
}

/// Invokes `keywordp` on the arguments `argv`.
fn do_keywordp(argv: &Vec<GcObj>, cx: &Context) -> (res: Result<GcObj, Error>)
    requires
        cx.wf(),
        cx.all_valid(argv@),
    ensures
        native_post(BuiltIn::Keywordp, argv@, cx, cx.roots.refs(), cx, res),
        res matches Ok(v) ==> cx.valid(v),
{
    let a0 = arg(argv, 0);
    Ok(GcObj::from_bool(keywordp(a0, cx)))
}

/// Invokes `indirect-function` on the arguments `argv`.
fn do_indirect_function(argv: &Vec<GcObj>, cx: &Context) -> (res: Result<GcObj, Error>)
    requires
        cx.wf(),
        cx.all_valid(argv@),
    ensures
        native_post(BuiltIn::IndirectFunction, argv@, cx, cx.roots.refs(), cx, res),
        res matches Ok(v) ==> cx.valid(v),
{
    let a0 = arg(argv, 0);
    {
        let r = indirect_function(a0, cx);
        proof {
            crate::object::tagged::lemma_decode_encode(r);
        }
        Ok(r)
    }
}

/// Invokes `get` on the arguments `argv`.
fn do_get(argv: &Vec<GcObj>, cx: &Context) -> (res: Result<GcObj, Error>)
    requires
        cx.wf(),
        cx.all_valid(argv@),
    ensures
        native_post(BuiltIn::Get, argv@, cx, cx.roots.refs(), cx, res),
        res matches Ok(v) ==> cx.valid(v),
{
    let a0 = arg(argv, 0);
    let a1 = arg(argv, 1);
    match a0.as_symbol() {
        Ok(s) => match a1.as_symbol() {
            Ok(p) => Ok(get(s, p, cx)),
            Err(e) => Err(e),
        },
        Err(e) => Err(e),
    }
}

/// Invokes `aref` on the arguments `argv`.
fn do_aref(argv: &Vec<GcObj>, cx: &Context) -> (res: Result<GcObj, Error>)
    requires
        cx.wf(),
        cx.all_valid(argv@),
    ensures
        native_post(BuiltIn::Aref, argv@, cx, cx.roots.refs(), cx, res),
        res matches Ok(v) ==> cx.valid(v),
{
    let a0 = arg(argv, 0);
    let a1 = arg(argv, 1);
    match want_index(a1) {
        Ok(idx) => match aref(a0, idx, cx) {
            Ok(v) => {
                proof {
                    crate::object::tagged::lemma_decode_encode(v);
                }
                Ok(v)
            },
            Err(e) => Err(e),
        },
        Err(e) => Err(e),
    }
}

/// Invokes `set` on the arguments `argv`.
fn do_set_value(argv: &Vec<GcObj>, cx: &mut Context) -> (res: Result<GcObj, Error>)
    requires
        old(cx).wf(),
        old(cx).all_valid(argv@),
    ensures
        final(cx).wf(),
        final(cx).roots@ == old(cx).roots@,
        native_post(BuiltIn::SetValue, argv@, old(cx), old(cx).roots.refs(), final(cx), res),
        res matches Ok(v) ==> final(cx).valid(v),
{
    let a0 = arg(argv, 0);
    let a1 = arg(argv, 1);
    match a0.as_symbol() {
        Ok(s) => crate::data::set(s, a1, cx),
        Err(e) => Err(e),
    }
}

/// Invokes `put` on the arguments `argv`.
fn do_put(argv: &Vec<GcObj>, cx: &mut Context) -> (res: Result<GcObj, Error>)
    requires
        old(cx).wf(),
        old(cx).all_valid(argv@),
    ensures
        final(cx).wf(),
        final(cx).roots@ == old(cx).roots@,
        native_post(BuiltIn::Put, argv@, old(cx), old(cx).roots.refs(), final(cx), res),
        res matches Ok(v) ==> final(cx).valid(v),
{
    let a0 = arg(argv, 0);
    let a1 = arg(argv, 1);
    let a2 = arg(argv, 2);
    match a0.as_symbol() {
        Ok(s) => match a1.as_symbol() {
            Ok(p) => Ok(put(s, p, a2, cx)),
            Err(e) => Err(e),
        },
        Err(e) => Err(e),
    }
}

/// Invokes `defvar` on the arguments `argv`.
fn do_defvar(argv: &Vec<GcObj>, cx: &mut Context) -> (res: Result<GcObj, Error>)
    requires
        old(cx).wf(),
        old(cx).all_valid(argv@),
    ensures
        final(cx).wf(),
        final(cx).roots@ == old(cx).roots@,
        native_post(BuiltIn::Defvar, argv@, old(cx), old(cx).roots.refs(), final(cx), res),
        res matches Ok(v) ==> final(cx).valid(v),
{
    let a0 = arg(argv, 0);
    let a1 = arg(argv, 1);
    let a2 = arg(argv, 2);
    match a0.as_symbol() {
        Ok(s) => match want_docstring(a2) {
            Ok(()) => {
                let init = if a1.nil() {
                    None
                } else {
                    Some(a1)
                };
                defvar(s, init, None, cx)
            },
            Err(e) => Err(e),
        },
        Err(e) => Err(e),
    }
}

/// Invokes `fset` on the arguments `argv`.
fn do_fset(argv: &Vec<GcObj>, cx: &mut Context) -> (res: Result<GcObj, Error>)
    requires
        old(cx).wf(),
        old(cx).all_valid(argv@),
    ensures
        final(cx).wf(),
        final(cx).roots@ == old(cx).roots@,
        native_post(BuiltIn::Fset, argv@, old(cx), old(cx).roots.refs(), final(cx), res),
        res matches Ok(v) ==> final(cx).valid(v),
{
    let a0 = arg(argv, 0);
    let a1 = arg(argv, 1);
    match a0.as_symbol() {
        Ok(s) => match fset(s, a1, cx) {
            Ok(r) => Ok(GcObj::from_symbol(r)),
            Err(e) => Err(e),
        },
        Err(e) => Err(e),
    }
}

/// Invokes `defalias` on the arguments `argv`.
fn do_defalias(argv: &Vec<GcObj>, cx: &mut Context) -> (res: Result<GcObj, Error>)
    requires
        old(cx).wf(),
        old(cx).all_valid(argv@),
    ensures
        final(cx).wf(),
        final(cx).roots@ == old(cx).roots@,
        native_post(BuiltIn::Defalias, argv@, old(cx), old(cx).roots.refs(), final(cx), res),
        res matches Ok(v) ==> final(cx).valid(v),
{
    let a0 = arg(argv, 0);
    let a1 = arg(argv, 1);
    let a2 = arg(argv, 2);
    match a0.as_symbol() {
        Ok(s) => match want_docstring(a2) {
            Ok(()) => match crate::data::defalias(s, a1, None, cx) {
                Ok(r) => Ok(GcObj::from_symbol(r)),
                Err(e) => Err(e),
            },
            Err(e) => Err(e),
        },
        Err(e) => Err(e),
    }
}

/// Invokes `fmakunbound` on the arguments `argv`.
fn do_fmakunbound(argv: &Vec<GcObj>, cx: &mut Context) -> (res: Result<GcObj, Error>)
    requires
        old(cx).wf(),
        old(cx).all_valid(argv@),
    ensures
        final(cx).wf(),
        final(cx).roots@ == old(cx).roots@,
        native_post(BuiltIn::Fmakunbound, argv@, old(cx), old(cx).roots.refs(), final(cx), res),
        res matches Ok(v) ==> final(cx).valid(v),
{
    let a0 = arg(argv, 0);
    match a0.as_symbol() {
        Ok(s) => Ok(GcObj::from_symbol(fmakunbound(s, cx))),
        Err(e) => Err(e),
    }
}

/// Invokes `makunbound` on the arguments `argv`.
fn do_makunbound(argv: &Vec<GcObj>, cx: &mut Context) -> (res: Result<GcObj, Error>)
    requires
        old(cx).wf(),
        old(cx).all_valid(argv@),
    ensures
        final(cx).wf(),
        final(cx).roots@ == old(cx).roots@,
        native_post(BuiltIn::Makunbound, argv@, old(cx), old(cx).roots.refs(), final(cx), res),
        res matches Ok(v) ==> final(cx).valid(v),
{
    let a0 = arg(argv, 0);
    match a0.as_symbol() {
        Ok(s) => Ok(GcObj::from_symbol(makunbound(s, cx))),
        Err(e) => Err(e),
    }
}

/// Invokes `provide` on the arguments `argv`.
fn do_provide(argv: &Vec<GcObj>, cx: &mut Context) -> (res: Result<GcObj, Error>)
    requires
        old(cx).wf(),
        old(cx).all_valid(argv@),
    ensures
        final(cx).wf(),
        final(cx).roots@ == old(cx).roots@,
        native_post(BuiltIn::Provide, argv@, old(cx), old(cx).roots.refs(), final(cx), res),
        res matches Ok(v) ==> final(cx).valid(v),
{
    let a0 = arg(argv, 0);
    let a1 = arg(argv, 1);
    match a0.as_symbol() {
        Ok(s) => {
            if a1.nil() || crate::data::consp(a1) {
                Ok(GcObj::from_symbol(provide(s, Some(a1), cx)))
            } else {
                Err(Error::type_error(Type::Cons, a1.tag()))
            }
        },
        Err(e) => Err(e),
    }
}

/// Invokes `aset` on the arguments `argv`.
fn do_aset(argv: &Vec<GcObj>, cx: &mut Context) -> (res: Result<GcObj, Error>)
    requires
        old(cx).wf(),
        old(cx).all_valid(argv@),
    ensures
        final(cx).wf(),
        final(cx).roots@ == old(cx).roots@,
        native_post(BuiltIn::Aset, argv@, old(cx), old(cx).roots.refs(), final(cx), res),
        res matches Ok(v) ==> final(cx).valid(v),
{
    let a0 = arg(argv, 0);
    let a1 = arg(argv, 1);
    let a2 = arg(argv, 2);
    match a0.as_vec() {
        Ok(r) => match want_index(a1) {
            Ok(idx) => aset(r, idx, a2, cx),
            Err(e) => Err(e),
        },
        Err(e) => Err(e),
    }
}

/// Invokes `symbol-name` on the arguments `argv`.
fn do_symbol_name(argv: &Vec<GcObj>, cx: &mut Context) -> (res: Result<GcObj, Error>)
    requires
        old(cx).wf(),
        old(cx).all_valid(argv@),
    ensures
        final(cx).wf(),
        final(cx).roots@ == old(cx).roots@,
        native_post(BuiltIn::SymbolName, argv@, old(cx), old(cx).roots.refs(), final(cx), res),
        res matches Ok(v) ==> final(cx).valid(v),
{
    let a0 = arg(argv, 0);
    match a0.as_symbol() {
        Ok(s) => {
            let text = String::from_str(symbol_name(s, cx));
            let ghost obj = HeapObject::String(LispString { gc: GcMark { bits: 0 }, text });
            match cx.string(text) {
                Some(v) => {
                    proof {
                        assert(cx.added(old(cx), obj, Some(v)));
                        assert(string_added(old(cx), old(cx).roots.refs(), cx, text, Some(v)));
                    }
                    Ok(v)
                },
                None => {
                    proof {
                        assert(cx.added(old(cx), obj, None));
                        assert(string_added(old(cx), old(cx).roots.refs(), cx, text, None));
                    }
                    Err(exhausted())
                },
            }
        },
        Err(e) => Err(e),
    }
}

/// Invokes a subroutine that calls no function, with the arguments in the
/// root slot `args`.
pub fn invoke(subr: BuiltIn, args: Root, cx: &mut Context) -> (res: Result<GcObj, Error>)
    requires
        old(cx).wf(),
        old(cx).roots.contains(args),
        old(cx).roots@[args.slot as int] is Objs,
        !subr.calls(),
    ensures
        final(cx).wf(),
        final(cx).roots@ == old(cx).roots@,
        native_post(
            subr,
            old(cx).roots@[args.slot as int].objs(),
            old(cx),
            old(cx).roots.refs(),
            final(cx),
            res,
        ),
        res matches Ok(v) ==> final(cx).valid(v),
{
    let argv = copy_objs(cx.bind_vec(args).as_slice());
    match subr {
        BuiltIn::Null
        | BuiltIn::Listp
        | BuiltIn::Nlistp
        | BuiltIn::Stringp
        | BuiltIn::Symbolp
        | BuiltIn::Functionp
        | BuiltIn::Subrp
        | BuiltIn::Vectorp
        | BuiltIn::Numberp
        | BuiltIn::Markerp
        | BuiltIn::Consp
        | BuiltIn::Integerp
        | BuiltIn::Atom
        | BuiltIn::ByteCodeFunctionP
        | BuiltIn::Bufferp => Ok(GcObj::from_bool(predicate(subr, arg(&argv, 0)))),
        BuiltIn::SymbolFunction
        | BuiltIn::SymbolValue
        | BuiltIn::Fboundp
        | BuiltIn::Boundp
        | BuiltIn::DefaultBoundp
        | BuiltIn::MakeVariableBufferLocal => match arg(&argv, 0).as_symbol() {
            Ok(s) => Ok(symbol_query(subr, s, cx)),
            Err(e) => Err(e),
        },
        BuiltIn::Eq => do_eq(&argv, cx),
        BuiltIn::Equal => do_equal(&argv, cx),
        BuiltIn::Eql => do_eql(&argv, cx),
        BuiltIn::Logand => do_logand(&argv, cx),
        BuiltIn::Keywordp => do_keywordp(&argv, cx),
        BuiltIn::IndirectFunction => do_indirect_function(&argv, cx),
        BuiltIn::Get => do_get(&argv, cx),
        BuiltIn::Aref => do_aref(&argv, cx),
        BuiltIn::SetValue => do_set_value(&argv, cx),
        BuiltIn::Put => do_put(&argv, cx),
        BuiltIn::Defvar => do_defvar(&argv, cx),
        BuiltIn::Fset => do_fset(&argv, cx),
        BuiltIn::Defalias => do_defalias(&argv, cx),
        BuiltIn::Fmakunbound => do_fmakunbound(&argv, cx),
        BuiltIn::Makunbound => do_makunbound(&argv, cx),
        BuiltIn::Provide => do_provide(&argv, cx),
        BuiltIn::Aset => do_aset(&argv, cx),
        BuiltIn::SymbolName => do_symbol_name(&argv, cx),
        _ => Ok(arg(&argv, 0)),
    }
}

} // verus!
