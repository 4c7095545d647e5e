//! Tagged values: an immediate or a reference in one word, with the
//! variant in the low three bits.
use crate::error::{Error, Type};
use vstd::prelude::*;

verus! {

/// Number of payload values: a word keeps 61 bits beside its tag.
pub const PAYLOAD_LIMIT: u64 = 0x2000_0000_0000_0000;

/// Smallest integer that fits in a word beside the tag.
pub const INT_MIN: i64 = -0x1000_0000_0000_0000;

/// Largest integer that fits in a word beside the tag.
pub const INT_MAX: i64 = 0x0fff_ffff_ffff_ffff;

/// The variant of a tagged value: the low three bits of its word.
#[derive(Clone, Copy, Debug, PartialEq, Eq, Structural)]
pub enum Tag {
    Int,
    Float,
    Symbol,
    String,
    Cons,
    Vec,
    LispFn,
    SubrFn,
}

impl Tag {
    /// The number that stands for the tag in the low bits of a word.
    pub open spec fn code(self) -> u64 {
        match self {
            Tag::Int => 0,
            Tag::Float => 1,
            Tag::Symbol => 2,
            Tag::String => 3,
            Tag::Cons => 4,
            Tag::Vec => 5,
            Tag::LispFn => 6,
            Tag::SubrFn => 7,
        }
    }

    /// The tag that a number below eight stands for.
    pub open spec fn of_code(code: u64) -> Tag {
        if code == 0 {
            Tag::Int
        } else if code == 1 {
            Tag::Float
        } else if code == 2 {
            Tag::Symbol
        } else if code == 3 {
            Tag::String
        } else if code == 4 {
            Tag::Cons
        } else if code == 5 {
            Tag::Vec
        } else if code == 6 {
            Tag::LispFn
        } else {
            Tag::SubrFn
        }
    }

    /// Whether values of this variant refer to an object of the arena.
    pub open spec fn boxed(self) -> bool {
        self != Tag::Int && self != Tag::Symbol
    }
}

/// A reference to a slot of the arena.
#[derive(Clone, Copy, Debug, PartialEq, Eq, Structural)]
pub struct ObjRef {
    pub idx: u64,
}

/// An interned symbol: its place in the symbol table.
#[derive(Clone, Copy, Debug, PartialEq, Eq, Structural)]
pub struct Symbol {
    pub id: u64,
}

/// A tagged value, unpacked.
#[derive(Clone, Copy, Debug, PartialEq, Eq, Structural)]
pub enum Object {
    Int(i64),
    Float(ObjRef),
    Symbol(Symbol),
    String(ObjRef),
    Cons(ObjRef),
    Vec(ObjRef),
    LispFn(ObjRef),
    SubrFn(ObjRef),
}

/// A tagged value: an immediate or a reference, in one word.
#[derive(Clone, Copy, Debug, PartialEq, Eq, Structural)]
pub struct GcObj {
    pub word: u64,
}

/// A reference as the collector's work stack holds it, without its type.
#[derive(Clone, Copy, Debug, PartialEq, Eq, Structural)]
pub struct RawObj {
    pub word: u64,
}

/// What can stand in the function cell of a symbol.
#[derive(Clone, Copy, Debug, PartialEq, Eq, Structural)]
pub enum Function {
    LispFn(ObjRef),
    SubrFn(ObjRef),
    Symbol(Symbol),
}

/// The integer that a payload stands for, in two's complement on 61 bits.
pub open spec fn int_of_payload(p: u64) -> i64 {
    if p < 0x1000_0000_0000_0000 {
        p as i64
    } else {
        (p - 0x2000_0000_0000_0000) as i64
    }
}

/// The payload that stands for an integer between [`INT_MIN`] and
/// [`INT_MAX`].
pub open spec fn payload_of_int(i: i64) -> u64 {
    if i >= 0 {
        i as u64
    } else {
        (i + 0x2000_0000_0000_0000) as u64
    }
}

impl Object {
    /// The variant.
    pub open spec fn tag_spec(self) -> Tag {
        match self {
            Object::Int(_) => Tag::Int,
            Object::Float(_) => Tag::Float,
            Object::Symbol(_) => Tag::Symbol,
            Object::String(_) => Tag::String,
            Object::Cons(_) => Tag::Cons,
            Object::Vec(_) => Tag::Vec,
            Object::LispFn(_) => Tag::LispFn,
            Object::SubrFn(_) => Tag::SubrFn,
        }
    }

    /// What the word holds beside the tag.
    pub open spec fn payload(self) -> u64 {
        match self {
            Object::Int(i) => payload_of_int(i),
            Object::Symbol(s) => s.id,
            Object::Float(r)
            | Object::String(r)
            | Object::Cons(r)
            | Object::Vec(r)
            | Object::LispFn(r)
            | Object::SubrFn(r) => r.idx,
        }
    }

    /// Whether the value fits in a word: an integer of 61 bits, or a
    /// reference below [`PAYLOAD_LIMIT`].
    pub open spec fn wf(self) -> bool {
        match self {
            Object::Int(i) => INT_MIN <= i <= INT_MAX,
            _ => self.payload() < PAYLOAD_LIMIT,
        }
    }

    /// The word that holds the value.
    pub open spec fn encode(self) -> GcObj {
        GcObj { word: (self.payload() * 8 + self.tag_spec().code()) as u64 }
    }

    /// The slot that the value refers to, if it is boxed.
    pub open spec fn target(self) -> Option<int> {
        match self {
            Object::Int(_) | Object::Symbol(_) => None,
            Object::Float(r)
            | Object::String(r)
            | Object::Cons(r)
            | Object::Vec(r)
            | Object::LispFn(r)
            | Object::SubrFn(r) => Some(r.idx as int),
        }
    }

    /// The reference in the value, if it is boxed.
    pub fn target_ref(self) -> (r: Option<ObjRef>)
        ensures
            match r {
                Some(x) => self.target() == Some(x.idx as int),
                None => self.target() is None,
            },
    {
        match self {
            Object::Int(_) => None,
            Object::Symbol(_) => None,
            Object::Float(r) => Some(r),
            Object::String(r) => Some(r),
            Object::Cons(r) => Some(r),
            Object::Vec(r) => Some(r),
            Object::LispFn(r) => Some(r),
            Object::SubrFn(r) => Some(r),
        }
    }

    /// The variant.
    pub fn tag(self) -> (t: Tag)
        ensures
            t == self.tag_spec(),
    {
        match self {
            Object::Int(_) => Tag::Int,
            Object::Float(_) => Tag::Float,
            Object::Symbol(_) => Tag::Symbol,
            Object::String(_) => Tag::String,
            Object::Cons(_) => Tag::Cons,
            Object::Vec(_) => Tag::Vec,
            Object::LispFn(_) => Tag::LispFn,
            Object::SubrFn(_) => Tag::SubrFn,
        }
    }

    /// Packs the value into a word.
    pub fn into_obj(self) -> (g: GcObj)
        requires
            self.wf(),
        ensures
            g == self.encode(),
            g@ == self,
    {
        proof {
            lemma_encode_decode(self);
        }
        match self {
            Object::Int(i) => {
                let p: u64 = if i >= 0 {
                    i as u64
                } else {
                    (i + 0x2000_0000_0000_0000) as u64
                };
                GcObj { word: p * 8 }
            },
            Object::Float(r) => GcObj { word: r.idx * 8 + 1 },
            Object::Symbol(s) => GcObj { word: s.id * 8 + 2 },
            Object::String(r) => GcObj { word: r.idx * 8 + 3 },
            Object::Cons(r) => GcObj { word: r.idx * 8 + 4 },
            Object::Vec(r) => GcObj { word: r.idx * 8 + 5 },
            Object::LispFn(r) => GcObj { word: r.idx * 8 + 6 },
            Object::SubrFn(r) => GcObj { word: r.idx * 8 + 7 },
        }
    }
}

impl View for GcObj {
    type V = Object;

    /// The value that the word holds. Every word holds one.
    open spec fn view(&self) -> Object {
        let p = self.word / 8;
        match Tag::of_code(self.word % 8) {
            Tag::Int => Object::Int(int_of_payload(p)),
            Tag::Float => Object::Float(ObjRef { idx: p }),
            Tag::Symbol => Object::Symbol(Symbol { id: p }),
            Tag::String => Object::String(ObjRef { idx: p }),
            Tag::Cons => Object::Cons(ObjRef { idx: p }),
            Tag::Vec => Object::Vec(ObjRef { idx: p }),
            Tag::LispFn => Object::LispFn(ObjRef { idx: p }),
            Tag::SubrFn => Object::SubrFn(ObjRef { idx: p }),
        }
    }
}

/// Packing a value that fits and unpacking the word gives the value back.
pub proof fn lemma_encode_decode(o: Object)
    requires
        o.wf(),
    ensures
        o.encode()@ == o,
{
}

/// Every word unpacks to a value that fits, and packs back to itself.
pub proof fn lemma_decode_encode(g: GcObj)
    ensures
        g@.wf(),
        g@.encode() == g,
{
}

/// Two words hold the same value exactly when they are the same word.
pub proof fn lemma_view_injective(a: GcObj, b: GcObj)
    ensures
        (a@ == b@) <==> (a == b),
{
    lemma_decode_encode(a);
    lemma_decode_encode(b);
}

impl GcObj {
    /// The variant of the value.
    pub open spec fn tag_spec(self) -> Tag {
        self@.tag_spec()
    }

    /// The slot that the value refers to, if it is boxed.
    pub open spec fn target(self) -> Option<int> {
        self@.target()
    }

    /// The symbol `nil`, which is also false and the empty list.
    pub open spec fn nil_spec() -> GcObj {
        GcObj { word: 2 }
    }

    /// The symbol `t`, the canonical true value.
    pub open spec fn t_spec() -> GcObj {
        GcObj { word: 10 }
    }

    /// The truth value as a symbol: `t` or `nil`.
    pub open spec fn bool_spec(b: bool) -> GcObj {
        if b {
            GcObj::t_spec()
        } else {
            GcObj::nil_spec()
        }
    }

    /// Unpacks the word.
    pub fn get(self) -> (o: Object)
        ensures
            o == self@,
            o.wf(),
    {
        let t = self.word % 8;
        let p = self.word / 8;
        if t == 0 {
            if p < 0x1000_0000_0000_0000 {
                Object::Int(p as i64)
            } else {
                Object::Int((p - 0x1000_0000_0000_0000) as i64 - 0x1000_0000_0000_0000)
            }
        } else if t == 1 {
            Object::Float(ObjRef { idx: p })
        } else if t == 2 {
            Object::Symbol(Symbol { id: p })
        } else if t == 3 {
            Object::String(ObjRef { idx: p })
        } else if t == 4 {
            Object::Cons(ObjRef { idx: p })
        } else if t == 5 {
            Object::Vec(ObjRef { idx: p })
        } else if t == 6 {
            Object::LispFn(ObjRef { idx: p })
        } else {
            Object::SubrFn(ObjRef { idx: p })
        }
    }

    /// The variant of the value, read off the low bits.
    pub fn tag(self) -> (t: Tag)
        ensures
            t == self.tag_spec(),
    {
        self.get().tag()
    }

    /// Whether two values are the same word: the same immediate, or
    /// references to the same object.
    pub fn ptr_eq(self, other: GcObj) -> (b: bool)
        ensures
            b == (self == other),
            b == (self@ == other@),
    {
        proof {
            lemma_view_injective(self, other);
        }
        self.word == other.word
    }

    /// The symbol `nil`.
    pub fn nil_obj() -> (g: GcObj)
        ensures
            g == GcObj::nil_spec(),
            g@ == Object::Symbol(Symbol { id: 0 }),
    {
        GcObj { word: 2 }
    }

    /// The symbol `t`.
    pub fn t_obj() -> (g: GcObj)
        ensures
            g == GcObj::t_spec(),
            g@ == Object::Symbol(Symbol { id: 1 }),
    {
        GcObj { word: 10 }
    }

    /// `t` for true, `nil` for false.
    pub fn from_bool(b: bool) -> (g: GcObj)
        ensures
            g == GcObj::bool_spec(b),
    {
        if b {
            GcObj::t_obj()
        } else {
            GcObj::nil_obj()
        }
    }

    /// The integer as a tagged value, if it fits in 61 bits.
    pub fn from_int(i: i64) -> (g: Option<GcObj>)
        ensures
            INT_MIN <= i <= INT_MAX <==> g is Some,
            g matches Some(v) ==> v@ == Object::Int(i),
    {
        if -0x1000_0000_0000_0000 <= i && i <= 0x0fff_ffff_ffff_ffff {
            Some(Object::Int(i).into_obj())
        } else {
            None
        }
    }

    /// The symbol as a tagged value.
    pub fn from_symbol(s: Symbol) -> (g: GcObj)
        requires
            s.id < PAYLOAD_LIMIT,
        ensures
            g@ == Object::Symbol(s),
    {
        Object::Symbol(s).into_obj()
    }

    /// Whether the value is `nil`: one comparison of words.
    pub fn nil(self) -> (b: bool)
        ensures
            b == (self == GcObj::nil_spec()),
    {
        self.word == 2
    }

    /// The reference in its untyped form.
    pub fn into_raw(self) -> (r: RawObj)
        ensures
            r.obj() == self,
    {
        RawObj { word: self.word }
    }

    /// The tagged value behind an untyped reference.
    pub fn from_raw(raw: RawObj) -> (g: GcObj)
        ensures
            g == raw.obj(),
    {
        GcObj { word: raw.word }
    }

    /// The integer in the value.
    pub fn as_int(self) -> (r: Result<i64, Error>)
        ensures
            match r {
                Ok(i) => self@ == Object::Int(i),
                Err(e) => self.tag_spec() != Tag::Int && e@ == (crate::error::ErrorView::Type {
                    expected: Type::Int,
                    found: self.tag_spec(),
                }),
            },
    {
        match self.get() {
            Object::Int(i) => Ok(i),
            o => Err(Error::type_error(Type::Int, o.tag())),
        }
    }

    /// The symbol in the value.
    pub fn as_symbol(self) -> (r: Result<Symbol, Error>)
        ensures
            match r {
                Ok(s) => self@ == Object::Symbol(s),
                Err(e) => self.tag_spec() != Tag::Symbol && e@ == (crate::error::ErrorView::Type {
                    expected: Type::Symbol,
                    found: self.tag_spec(),
                }),
            },
    {
        match self.get() {
            Object::Symbol(s) => Ok(s),
            o => Err(Error::type_error(Type::Symbol, o.tag())),
        }
    }

    /// The reference to a float in the value.
    pub fn as_float(self) -> (r: Result<ObjRef, Error>)
        ensures
            match r {
                Ok(x) => self@ == Object::Float(x),
                Err(e) => self.tag_spec() != Tag::Float && e@ == (crate::error::ErrorView::Type {
                    expected: Type::Float,
                    found: self.tag_spec(),
                }),
            },
    {
        match self.get() {
            Object::Float(x) => Ok(x),
            o => Err(Error::type_error(Type::Float, o.tag())),
        }
    }

    /// The reference to a string in the value.
    pub fn as_string(self) -> (r: Result<ObjRef, Error>)
        ensures
            match r {
                Ok(x) => self@ == Object::String(x),
                Err(e) => self.tag_spec() != Tag::String && e@ == (crate::error::ErrorView::Type {
                    expected: Type::String,
                    found: self.tag_spec(),
                }),
            },
    {
        match self.get() {
            Object::String(x) => Ok(x),
            o => Err(Error::type_error(Type::String, o.tag())),
        }
    }

    /// The reference to a cons cell in the value.
    pub fn as_cons(self) -> (r: Result<ObjRef, Error>)
        ensures
            match r {
                Ok(x) => self@ == Object::Cons(x),
                Err(e) => self.tag_spec() != Tag::Cons && e@ == (crate::error::ErrorView::Type {
                    expected: Type::Cons,
                    found: self.tag_spec(),
                }),
            },
    {
        match self.get() {
            Object::Cons(x) => Ok(x),
            o => Err(Error::type_error(Type::Cons, o.tag())),
        }
    }

    /// The reference to a vector in the value.
    pub fn as_vec(self) -> (r: Result<ObjRef, Error>)
        ensures
            match r {
                Ok(x) => self@ == Object::Vec(x),
                Err(e) => self.tag_spec() != Tag::Vec && e@ == (crate::error::ErrorView::Type {
                    expected: Type::Vec,
                    found: self.tag_spec(),
                }),
            },
    {
        match self.get() {
            Object::Vec(x) => Ok(x),
            o => Err(Error::type_error(Type::Vec, o.tag())),
        }
    }

    /// The value as something that can stand in a function cell.
    pub fn as_function(self) -> (r: Result<Function, Error>)
        ensures
            match r {
                Ok(f) => f.as_object() == self@,
                Err(e) => !Function::is_function(self@) && e@ == (crate::error::ErrorView::Type {
                    expected: Type::Func,
                    found: self.tag_spec(),
                }),
            },
    {
        match self.get() {
            Object::LispFn(x) => Ok(Function::LispFn(x)),
            Object::SubrFn(x) => Ok(Function::SubrFn(x)),
            Object::Symbol(s) => Ok(Function::Symbol(s)),
            o => Err(Error::type_error(Type::Func, o.tag())),
        }
    }
}

impl RawObj {
    /// The tagged value behind the untyped reference.
    pub open spec fn obj(self) -> GcObj {
        GcObj { word: self.word }
    }
}

impl Function {
    /// The function as a value.
    pub open spec fn as_object(self) -> Object {
        match self {
            Function::LispFn(r) => Object::LispFn(r),
            Function::SubrFn(r) => Object::SubrFn(r),
            Function::Symbol(s) => Object::Symbol(s),
        }
    }

    /// Whether a value can stand in a function cell.
    pub open spec fn is_function(o: Object) -> bool {
        o is LispFn || o is SubrFn || o is Symbol
    }

    /// The function as a tagged value.
    pub fn into_obj(self) -> (g: GcObj)
        requires
            self.as_object().wf(),
        ensures
            g@ == self.as_object(),
    {
        match self {
            Function::LispFn(r) => Object::LispFn(r).into_obj(),
            Function::SubrFn(r) => Object::SubrFn(r).into_obj(),
            Function::Symbol(s) => Object::Symbol(s).into_obj(),
        }
    }
}

} // verus!
