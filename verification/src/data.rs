//! The primitives on values, symbols, variables and arrays.
use crate::env::{plist_get, plist_put, resolve};
use crate::error::{Error, ErrorView, Type};
use crate::gc::context::Context;
use crate::object::boxed::HeapObject;
use crate::object::tagged::{Function, GcObj, Object, ObjRef, Symbol, Tag};
use crate::structure::{deref, equal_bounded, equal_spec, lemma_deref_valid};
use crate::gc::trace::Trace;
use vstd::prelude::*;
use vstd::string::StrSliceExecFns;

verus! {

/// What the function cell of `symbol` holds after `fset` stored
/// `definition`: nothing for `nil`, the definition otherwise.
pub open spec fn fset_cell(definition: GcObj) -> Option<GcObj> {
    if definition == GcObj::nil_spec() {
        None
    } else {
        Some(definition)
    }
}

/// Sets the function cell of `symbol`: empties it when `definition` is
/// `nil`, and stores the definition otherwise. A definition that is not
/// a function is refused, and nothing changes.
pub fn fset(symbol: Symbol, definition: GcObj, cx: &mut Context) -> (r: Result<Symbol, Error>)
    requires
        old(cx).wf(),
        old(cx).symbols.contains(symbol),
        old(cx).valid(definition),
    ensures
        final(cx).wf(),
        final(cx).same_heap(old(cx)),
        final(cx).env == old(cx).env,
        final(cx).features == old(cx).features,
        final(cx).symbols@.len() == old(cx).symbols@.len(),
        forall|i: int|
            0 <= i < old(cx).symbols@.len() && i != symbol.id ==> final(cx).symbols@[i] == old(
                cx,
            ).symbols@[i],
        match r {
            Ok(s) => {
                &&& s == symbol
                &&& (definition == GcObj::nil_spec() || Function::is_function(definition@))
                &&& final(cx).symbols@[symbol.id as int].func == fset_cell(definition)
                &&& final(cx).symbols.name_of(symbol) == old(cx).symbols.name_of(symbol)
            },
            Err(e) => {
                &&& definition != GcObj::nil_spec()
                &&& !Function::is_function(definition@)
                &&& e@ == (ErrorView::Type { expected: Type::Func, found: definition.tag_spec() })
                &&& final(cx).symbols@ == old(cx).symbols@
            },
        },
{
    if definition.nil() {
        cx.unbind_func(symbol);
        Ok(symbol)
    } else {
        match definition.as_function() {
            Ok(func) => {
                proof {
                    crate::object::tagged::lemma_decode_encode(definition);
                }
                cx.set_func(symbol, func);
                proof {
                    let g = cx.symbols@[symbol.id as int].func.unwrap();
                    assert(cx.symbols.func_of(symbol) == Some(func));
                    assert(Function::is_function(g@));
                    assert(g@ == func.as_object());
                    crate::object::tagged::lemma_view_injective(g, definition);
                }
                Ok(symbol)
            },
            Err(e) => {
                assert(cx.symbols@ =~= old(cx).symbols@);
                Err(e)
            },
        }
    }
}

/// Defines `symbol` as the function `definition`: the same as [`fset`].
pub fn defalias(
    symbol: Symbol,
    definition: GcObj,
    _docstring: Option<&String>,
    cx: &mut Context,
) -> (r: Result<Symbol, Error>)
    requires
        old(cx).wf(),
        old(cx).symbols.contains(symbol),
        old(cx).valid(definition),
    ensures
        final(cx).wf(),
        final(cx).same_heap(old(cx)),
        final(cx).env == old(cx).env,
        final(cx).features == old(cx).features,
        final(cx).symbols@.len() == old(cx).symbols@.len(),
        forall|i: int|
            0 <= i < old(cx).symbols@.len() && i != symbol.id ==> final(cx).symbols@[i] == old(
                cx,
            ).symbols@[i],
        match r {
            Ok(s) => {
                &&& s == symbol
                &&& (definition == GcObj::nil_spec() || Function::is_function(definition@))
                &&& final(cx).symbols@[symbol.id as int].func == fset_cell(definition)
                &&& final(cx).symbols.name_of(symbol) == old(cx).symbols.name_of(symbol)
            },
            Err(e) => {
                &&& definition != GcObj::nil_spec()
                &&& !Function::is_function(definition@)
                &&& e@ == (ErrorView::Type { expected: Type::Func, found: definition.tag_spec() })
                &&& final(cx).symbols@ == old(cx).symbols@
            },
        },
{
    fset(symbol, definition, cx)
}

/// Binds the variable `place` to `newlet` and returns `newlet`.
pub fn set(place: Symbol, newlet: GcObj, cx: &mut Context) -> (r: Result<GcObj, Error>)
    requires
        old(cx).wf(),
        old(cx).valid(newlet),
    ensures
        final(cx).wf(),
        final(cx).same_heap(old(cx)),
        final(cx).symbols == old(cx).symbols,
        final(cx).features == old(cx).features,
        final(cx).env.props == old(cx).env.props,
        r matches Ok(v) && v == newlet,
        final(cx).env.var(place) == Some(newlet),
        forall|x: Symbol| x != place ==> final(cx).env.var(x) == old(cx).env.var(x),
{
    cx.set_var(place, newlet);
    Ok(newlet)
}

/// Gives the property `propname` of `symbol` the value `value`, and
/// returns `value`.
pub fn put(symbol: Symbol, propname: Symbol, value: GcObj, cx: &mut Context) -> (r: GcObj)
    requires
        old(cx).wf(),
        old(cx).valid(value),
    ensures
        final(cx).wf(),
        final(cx).same_heap(old(cx)),
        final(cx).symbols == old(cx).symbols,
        final(cx).features == old(cx).features,
        final(cx).env.vars == old(cx).env.vars,
        r == value,
        final(cx).env.plist(symbol) == plist_put(old(cx).env.plist(symbol), propname, value),
        forall|x: Symbol| x != symbol ==> final(cx).env.plist(x) == old(cx).env.plist(x),
{
    cx.set_prop(symbol, propname, value);
    value
}

/// The value of the property `propname` of `symbol`; `nil` if it has
/// none.
pub fn get(symbol: Symbol, propname: Symbol, cx: &Context) -> (r: GcObj)
    requires
        cx.wf(),
    ensures
        r == match plist_get(cx.env.plist(symbol), propname) {
            Some(v) => v,
            None => GcObj::nil_spec(),
        },
        cx.valid(r),
{
    match cx.prop(symbol, propname) {
        Some(v) => v,
        None => GcObj::nil_obj(),
    }
}

/// Whether two values are the same: the same immediate, or references to
/// the same object.
pub fn eq(obj1: GcObj, obj2: GcObj) -> (r: bool)
    ensures
        r == (obj1 == obj2),
{
    obj1.ptr_eq(obj2)
}

/// Whether two values are structurally equal: the same, or cons cells
/// with equal parts, vectors with equal items, strings with the same
/// text, floats with the same bits.
pub fn equal(obj1: GcObj, obj2: GcObj, cx: &Context) -> (r: bool)
    requires
        cx.wf(),
        cx.valid(obj1),
        cx.valid(obj2),
    ensures
        r == equal_spec(cx.block@, obj1, obj2, cx.block@.len()),
        obj1 == obj2 ==> r,
{
    equal_bounded(cx, obj1, obj2, cx.block.capacity())
}

/// What [`eql`] decides: two floats are compared by their bits, any other
/// two values by identity.
pub open spec fn eql_spec(h: crate::gc::heap::Heap, a: GcObj, b: GcObj) -> bool {
    match (deref(h, a), deref(h, b)) {
        (Some(HeapObject::Float(x)), Some(HeapObject::Float(y))) => x.bits == y.bits,
        _ => a == b,
    }
}

/// Whether two values are the same, or floats with the same bits.
pub fn eql(obj1: GcObj, obj2: GcObj, cx: &Context) -> (r: bool)
    requires
        cx.wf(),
        cx.valid(obj1),
        cx.valid(obj2),
    ensures
        r == eql_spec(cx.block@, obj1, obj2),
{
    proof {
        lemma_deref_valid(cx.block@, cx.symbols@.len(), obj1);
        lemma_deref_valid(cx.block@, cx.symbols@.len(), obj2);
    }
    match (obj1.get(), obj2.get()) {
        (Object::Float(x), Object::Float(y)) => cx.block.float(x).bits == cx.block.float(y).bits,
        _ => obj1.ptr_eq(obj2),
    }
}

/// The bitwise AND of the integers, folded from the left onto `0`.
pub open spec fn logand_spec(ints: Seq<i64>) -> i64
    decreases ints.len(),
{
    if ints.len() == 0 {
        0
    } else {
        logand_spec(ints.drop_last()) & ints.last()
    }
}

/// Folding onto `0` gives `0`, whatever the integers.
pub proof fn lemma_logand_zero(ints: Seq<i64>)
    ensures
        logand_spec(ints) == 0,
    decreases ints.len(),
{
    if ints.len() > 0 {
        lemma_logand_zero(ints.drop_last());
        let x = ints.last();
        assert(0i64 & x == 0i64) by (bit_vector);
    }
}

/// The bitwise AND of the integers, folded from the left onto `0`.
pub fn logand(int_or_markers: &[i64]) -> (r: i64)
    ensures
        r == logand_spec(int_or_markers@),
        r == 0,
{
    let mut accum: i64 = 0;
    let mut i: usize = 0;
    assert(int_or_markers@.take(0) =~= Seq::<i64>::empty());
    while i < int_or_markers.len()
        invariant
            i <= int_or_markers.len(),
            accum == logand_spec(int_or_markers@.take(i as int)),
        decreases int_or_markers.len() - i,
    {
        assert(int_or_markers@.take(i + 1).drop_last() =~= int_or_markers@.take(i as int));
        accum = accum & int_or_markers[i];
        i += 1;
    }
    proof {
        assert(int_or_markers@.take(int_or_markers@.len() as int) =~= int_or_markers@);
        lemma_logand_zero(int_or_markers@);
    }
    accum
}

/// What the function cell of `symbol` holds; `nil` if it is empty.
pub fn symbol_function(symbol: Symbol, cx: &Context) -> (r: GcObj)
    requires
        cx.wf(),
        cx.symbols.contains(symbol),
    ensures
        r == match cx.symbols@[symbol.id as int].func {
            Some(f) => f,
            None => GcObj::nil_spec(),
        },
        cx.valid(r),
{
    match cx.func_obj(symbol) {
        Some(f) => f,
        None => GcObj::nil_obj(),
    }
}

/// The value of the variable `symbol`, if it is bound.
pub fn symbol_value(symbol: Symbol, cx: &Context) -> (r: Option<GcObj>)
    requires
        cx.wf(),
    ensures
        r == cx.env.var(symbol),
        r matches Some(v) ==> cx.valid(v),
{
    cx.var(symbol)
}

/// The name of `symbol`.
pub fn symbol_name(symbol: Symbol, cx: &Context) -> (r: &str)
    requires
        cx.symbols.contains(symbol),
    ensures
        r@ == cx.symbols.name_of(symbol),
{
    cx.symbols.name(symbol)
}

/// Whether the value is `nil`.
pub fn null(obj: GcObj) -> (r: bool)
    ensures
        r == (obj == GcObj::nil_spec()),
{
    obj.nil()
}

/// Whether the function cell of `symbol` holds something.
pub fn fboundp(symbol: Symbol, cx: &Context) -> (r: bool)
    requires
        cx.wf(),
        cx.symbols.contains(symbol),
    ensures
        r == cx.symbols@[symbol.id as int].func is Some,
{
    cx.symbols.has_func(symbol)
}

/// Empties the function cell of `symbol` and returns `symbol`.
pub fn fmakunbound(symbol: Symbol, cx: &mut Context) -> (r: Symbol)
    requires
        old(cx).wf(),
        old(cx).symbols.contains(symbol),
    ensures
        final(cx).wf(),
        final(cx).same_heap(old(cx)),
        final(cx).env == old(cx).env,
        final(cx).features == old(cx).features,
        r == symbol,
        final(cx).symbols@.len() == old(cx).symbols@.len(),
        final(cx).symbols@[symbol.id as int].func is None,
        final(cx).symbols.name_of(symbol) == old(cx).symbols.name_of(symbol),
        forall|i: int|
            0 <= i < old(cx).symbols@.len() && i != symbol.id ==> final(cx).symbols@[i] == old(
                cx,
            ).symbols@[i],
{
    cx.unbind_func(symbol);
    symbol
}

/// Whether the variable `symbol` is bound.
pub fn boundp(symbol: Symbol, cx: &Context) -> (r: bool)
    requires
        cx.wf(),
    ensures
        r == cx.env.var(symbol) is Some,
{
    cx.var(symbol).is_some()
}

/// Unbinds the variable `symbol` and returns `symbol`.
pub fn makunbound(symbol: Symbol, cx: &mut Context) -> (r: Symbol)
    requires
        old(cx).wf(),
    ensures
        final(cx).wf(),
        final(cx).same_heap(old(cx)),
        final(cx).symbols == old(cx).symbols,
        final(cx).features == old(cx).features,
        final(cx).env.props == old(cx).env.props,
        r == symbol,
        final(cx).env.var(symbol) is None,
        forall|x: Symbol| x != symbol ==> final(cx).env.var(x) == old(cx).env.var(x),
{
    cx.unset_var(symbol);
    symbol
}

/// Whether the variable `symbol` has a default value: whether it is
/// bound.
pub fn default_boundp(symbol: Symbol, cx: &Context) -> (r: bool)
    requires
        cx.wf(),
    ensures
        r == cx.env.var(symbol) is Some,
{
    cx.var(symbol).is_some()
}

/// Whether the value is a list: `nil` or a cons cell.
pub fn listp(object: GcObj) -> (r: bool)
    ensures
        r == (object == GcObj::nil_spec() || object.tag_spec() == Tag::Cons),
{
    match object.get() {
        Object::Symbol(_) => object.nil(),
        Object::Cons(_) => true,
        _ => false,
    }
}

/// Whether the value is not a list.
pub fn nlistp(object: GcObj) -> (r: bool)
    ensures
        r == !(object == GcObj::nil_spec() || object.tag_spec() == Tag::Cons),
{
    !listp(object)
}

/// Whether the value is a symbol.
pub fn symbolp(object: GcObj) -> (r: bool)
    ensures
        r == (object.tag_spec() == Tag::Symbol),
{
    matches!(object.get(), Object::Symbol(_))
}

/// Whether the value is a function proper: byte-compiled or built in.
pub fn functionp(object: GcObj) -> (r: bool)
    ensures
        r == (object.tag_spec() == Tag::LispFn || object.tag_spec() == Tag::SubrFn),
{
    matches!(object.get(), Object::LispFn(_) | Object::SubrFn(_))
}

/// Whether the value is a built-in subroutine.
pub fn subrp(object: GcObj) -> (r: bool)
    ensures
        r == (object.tag_spec() == Tag::SubrFn),
{
    matches!(object.get(), Object::SubrFn(_))
}

/// Whether the value is a string.
pub fn stringp(object: GcObj) -> (r: bool)
    ensures
        r == (object.tag_spec() == Tag::String),
{
    matches!(object.get(), Object::String(_))
}

/// Whether the value is a number: an integer or a float.
pub fn numberp(object: GcObj) -> (r: bool)
    ensures
        r == (object.tag_spec() == Tag::Int || object.tag_spec() == Tag::Float),
{
    matches!(object.get(), Object::Int(_) | Object::Float(_))
}

/// Whether the value is a marker. There are no markers.
pub fn markerp(_object: GcObj) -> (r: bool)
    ensures
        !r,
{
    false
}

/// Whether the value is a vector.
pub fn vectorp(object: GcObj) -> (r: bool)
    ensures
        r == (object.tag_spec() == Tag::Vec),
{
    matches!(object.get(), Object::Vec(_))
}

/// Whether the value is a cons cell.
pub fn consp(object: GcObj) -> (r: bool)
    ensures
        r == (object.tag_spec() == Tag::Cons),
{
    matches!(object.get(), Object::Cons(_))
}

/// Whether a name is that of a keyword: whether it begins with a colon.
pub open spec fn keyword_name(name: Seq<char>) -> bool {
    name.len() > 0 && name[0] == ':'
}

/// Whether the value is a keyword: a symbol whose name begins with a
/// colon.
pub fn keywordp(object: GcObj, cx: &Context) -> (r: bool)
    requires
        cx.valid(object),
    ensures
        r == (object@ matches Object::Symbol(s) && keyword_name(cx.symbols.name_of(s))),
{
    match object.get() {
        Object::Symbol(s) => {
            let name = cx.symbols.name(s);
            name.unicode_len() > 0 && name.get_char(0) == ':'
        },
        _ => false,
    }
}

/// Whether the value is an integer.
pub fn integerp(object: GcObj) -> (r: bool)
    ensures
        r == (object.tag_spec() == Tag::Int),
{
    matches!(object.get(), Object::Int(_))
}

/// Whether the value is an atom: anything but a cons cell.
pub fn atom(object: GcObj) -> (r: bool)
    ensures
        r == (object.tag_spec() != Tag::Cons),
{
    !consp(object)
}

/// Whether the value is a byte-code function object of the old kind.
/// There are none.
pub fn byte_code_function_p(_object: GcObj) -> (r: bool)
    ensures
        !r,
{
    false
}

/// Whether the value is a buffer. There are no buffers.
pub fn bufferp(_object: GcObj) -> (r: bool)
    ensures
        !r,
{
    false
}

/// The value that [`defvar`] returns: the initial value, or `nil` if none
/// was given.
pub open spec fn defvar_value(initvalue: Option<GcObj>) -> GcObj {
    match initvalue {
        Some(v) => v,
        None => GcObj::nil_spec(),
    }
}

/// Declares the variable `symbol`. The initial value, if one is given, is
/// stored unless the variable is bound already. Returns the initial
/// value, or `nil` if none was given.
pub fn defvar(
    symbol: Symbol,
    initvalue: Option<GcObj>,
    _docstring: Option<&String>,
    cx: &mut Context,
) -> (r: Result<GcObj, Error>)
    requires
        old(cx).wf(),
        initvalue matches Some(v) ==> old(cx).valid(v),
    ensures
        final(cx).wf(),
        final(cx).same_heap(old(cx)),
        final(cx).symbols == old(cx).symbols,
        final(cx).features == old(cx).features,
        final(cx).env.props == old(cx).env.props,
        r matches Ok(v) && v == defvar_value(initvalue),
        initvalue is None || old(cx).env.var(symbol) is Some ==> final(cx).env == old(cx).env,
        final(cx).env.var(symbol) == if old(cx).env.var(symbol) is Some {
            old(cx).env.var(symbol)
        } else {
            initvalue
        },
        forall|x: Symbol| x != symbol ==> final(cx).env.var(x) == old(cx).env.var(x),
{
    match initvalue {
        Some(value) => {
            if !boundp(symbol, cx) {
                cx.set_var(symbol, value);
            }
            Ok(value)
        },
        None => Ok(GcObj::nil_obj()),
    }
}

/// Makes the variable local to each buffer. There are no buffers, so
/// nothing happens; the variable is returned.
pub fn make_variable_buffer_local(variable: Symbol) -> (r: Symbol)
    ensures
        r == variable,
{
    variable
}

/// Writes `newlet` at `idx` of the vector `array` and returns `newlet`.
/// Fails while a reader holds the vector, and on an index past its end;
/// nothing changes then.
pub fn aset(array: ObjRef, idx: usize, newlet: GcObj, cx: &mut Context) -> (r: Result<GcObj, Error>)
    requires
        old(cx).wf(),
        old(cx).block.live(array),
        old(cx).block.obj(array) is Vec,
        old(cx).valid(newlet),
    ensures
        final(cx).wf(),
        final(cx).same_roots(old(cx)),
        final(cx).threshold == old(cx).threshold,
        final(cx).block@.len() == old(cx).block@.len(),
        forall|i: int|
            0 <= i < old(cx).block@.len() && i != array.idx ==> final(cx).block@[i] == old(
                cx,
            ).block@[i],
        final(cx).block.live(array),
        final(cx).block.obj(array) is Vec,
        old(cx).block.obj(array)->Vec_0.after_set(
            idx,
            newlet,
            final(cx).block.obj(array)->Vec_0,
            match r {
                Ok(_) => None,
                Err(e) => Some(e@),
            },
        ),
        r matches Ok(v) ==> v == newlet,
        forall|o: GcObj| old(cx).valid(o) == #[trigger] final(cx).valid(o),
{
    match cx.vec_set(array, idx, newlet) {
        Ok(()) => Ok(newlet),
        Err(e) => Err(e),
    }
}

/// What [`aref`] hands back: the item of a vector, the code point of a
/// string at a character index, or the error for an index past the end
/// (which names the length: the number of items, or of characters) or
/// for a value that is no array.
pub open spec fn aref_spec(h: crate::gc::heap::Heap, array: GcObj, idx: usize) -> Result<
    Object,
    ErrorView,
> {
    match deref(h, array) {
        Some(HeapObject::Vec(v)) => if idx < v@.len() {
            Ok(v@[idx as int]@)
        } else {
            Err(ErrorView::OutOfBounds { idx: idx as int, len: v@.len() as int })
        },
        Some(HeapObject::String(s)) => if idx < s.text@.len() {
            Ok(Object::Int(s.text@[idx as int] as i64))
        } else {
            Err(ErrorView::OutOfBounds { idx: idx as int, len: s.text@.len() as int })
        },
        _ => Err(ErrorView::Type { expected: Type::Vec, found: array.tag_spec() }),
    }
}

/// The item at `idx` of a vector, or the code point at character index
/// `idx` of a string.
pub fn aref(array: GcObj, idx: usize, cx: &Context) -> (r: Result<GcObj, Error>)
    requires
        cx.wf(),
        cx.valid(array),
    ensures
        match r {
            Ok(v) => aref_spec(cx.block@, array, idx) == Ok::<Object, ErrorView>(v@) && cx.valid(v),
            Err(e) => aref_spec(cx.block@, array, idx) == Err::<Object, ErrorView>(e@),
        },
{
    proof {
        lemma_deref_valid(cx.block@, cx.symbols@.len(), array);
    }
    match array.get() {
        Object::Vec(x) => {
            let vec = cx.block.vector(x);
            match vec.get(idx) {
                Some(v) => {
                    proof {
                        assert(v.refs().contains(v));
                        assert(cx.block@[x.idx as int].unwrap().refs().contains(v));
                    }
                    Ok(v)
                },
                None => Err(Error::OutOfBounds { idx, len: vec.len() }),
            }
        },
        Object::String(x) => {
            let text = cx.block.string(x).text.as_str();
            let len = text.unicode_len();
            if idx < len {
                let c = text.get_char(idx);
                let code = c as u32;
                Ok(Object::Int(code as i64).into_obj())
            } else {
                Err(Error::OutOfBounds { idx, len })
            }
        },
        other => Err(Error::type_error(Type::Vec, other.tag())),
    }
}

/// The function that `object` names in the end: for a symbol, what its
/// function cell resolves to through other symbols, or `nil` if that is
/// nothing; any other value itself.
pub open spec fn indirect_spec(cx: &Context, object: GcObj) -> Object {
    match object@ {
        Object::Symbol(s) => match resolve(cx.symbols@, s, cx.symbols@.len()) {
            Some(f) => f.as_object(),
            None => GcObj::nil_spec()@,
        },
        other => other,
    }
}

/// The function that `object` names in the end.
pub fn indirect_function(object: GcObj, cx: &Context) -> (r: GcObj)
    requires
        cx.wf(),
        cx.valid(object),
    ensures
        r@ == indirect_spec(cx, object),
        cx.valid(r),
{
    match object.get() {
        Object::Symbol(sym) => match cx.symbols.follow_indirect(sym) {
            Some(func) => {
                let r = func.into_obj();
                proof {
                    let i = choose|i: int|
                        0 <= i < cx.symbols@.len() && (#[trigger] cx.symbols@[i]).func == Some(
                            func.as_object().encode(),
                        );
                    assert(cx.symbols@[i].refs().contains(r));
                    assert(cx.symbols.refs().contains(r));
                    assert(cx.root_refs().contains(r));
                }
                r
            },
            None => GcObj::nil_obj(),
        },
        _ => object,
    }
}

/// Records `feature` as provided and returns it.
pub fn provide(feature: Symbol, _subfeatures: Option<GcObj>, cx: &mut Context) -> (r: Symbol)
    requires
        old(cx).wf(),
    ensures
        final(cx).wf(),
        final(cx).same_heap(old(cx)),
        final(cx).symbols == old(cx).symbols,
        final(cx).env == old(cx).env,
        r == feature,
        final(cx).features@ == old(cx).features@.insert(feature.id),
{
    cx.add_feature(feature);
    feature
}

/// Whether `feature` was provided.
pub fn featurep(feature: Symbol, cx: &Context) -> (r: bool)
    ensures
        r == cx.features@.contains(feature.id),
{
    cx.has_feature(feature)
}

} // verus!
