//! Calling functions: arity, padding with `nil`, and the way from a
//! function value to the subroutine or the byte-code that runs.
use crate::builtin::{arg, arg_spec, invoke, lemma_native_post_frame, native_post, type_err};
use crate::env::{resolve, SymbolCell};
use crate::error::{ArgError, Error, ErrorView, Type};
use crate::gc::context::Context;
use crate::gc::heap::Heap;
use crate::gc::root::{Root, Rooted};
use crate::gc::trace::{lemma_seq_refs_objs, lemma_seq_refs_push, seq_refs, Trace};
use crate::list::{copy_objs, list_elems};
use crate::object::func::{BuiltIn, FnArgs, SubrFn};
use crate::object::tagged::{lemma_decode_encode, Function, GcObj, Object, ObjRef, Symbol};
use vstd::prelude::*;
use vstd::string::StringExecFns;

verus! {

/// The longest chain of `apply` and `funcall` that a call follows.
pub const MAX_CALL_CHAIN: usize = 1024;

/// What a call came to.
#[derive(Debug)]
pub enum Outcome {
    /// A subroutine ran and handed this back.
    Value(GcObj),
    /// The callee is this byte-compiled function; its arguments stand
    /// ready in the root slot of the call, for the interpreter to run it.
    ByteCode(ObjRef),
}

/// What `apply` and `funcall` came to.
#[derive(Debug)]
pub enum Called {
    /// A subroutine ran and handed this back.
    Value(GcObj),
    /// The callee is the byte-compiled function `func`, to be run by the
    /// interpreter on the arguments `args`.
    Interpret { func: ObjRef, args: Vec<GcObj> },
}

/// Where a call ends: at a byte-compiled function or at a subroutine.
pub enum Target {
    ByteCode(ObjRef),
    Native(BuiltIn),
}

/// `n` times `nil`.
pub open spec fn nils(n: int) -> Seq<GcObj> {
    Seq::new(n as nat, |i: int| GcObj::nil_spec())
}

/// The text of the message with which a call fails whose chain of `apply`
/// and `funcall` is too long.
pub open spec fn chain_message() -> Seq<char> {
    "call chain too long"@
}

/// The number of `nil`s to pad a call of `n` arguments with, or the error
/// for a call with too few or too many.
pub open spec fn arity_spec(spec: FnArgs, n: int, name: Seq<char>) -> Result<int, ErrorView> {
    if spec.accepts(n) {
        Ok(spec.fill(n))
    } else {
        Err(ErrorView::Arg { expected: spec.wanted(n), actual: n, name })
    }
}

/// The number of `nil`s to pad a call of `n` arguments with.
pub fn check_arity(spec: FnArgs, n: usize, name: &str) -> (r: Result<u16, Error>)
    ensures
        match r {
            Ok(k) => arity_spec(spec, n as int, name@) == Ok::<int, ErrorView>(k as int),
            Err(e) => arity_spec(spec, n as int, name@) == Err::<int, ErrorView>(e@),
        },
{
    let required = spec.required as usize;
    let total = required + spec.optional as usize;
    if n < required {
        Err(Error::Arg(ArgError { expected: required, actual: n, name: String::from_str(name) }))
    } else if !spec.rest && n > total {
        Err(Error::Arg(ArgError { expected: total, actual: n, name: String::from_str(name) }))
    } else if n >= total {
        Ok(0)
    } else {
        Ok((total - n) as u16)
    }
}

/// Whether the state `b` is the state `a` but for what the root slot
/// `slot` holds, which is a vector of values.
pub open spec fn stepped(a: &Context, b: &Context, slot: Root) -> bool {
    &&& b.block == a.block
    &&& b.symbols == a.symbols
    &&& b.env == a.env
    &&& b.features == a.features
    &&& b.threshold == a.threshold
    &&& b.roots@.len() == a.roots@.len()
    &&& slot.slot < b.roots@.len()
    &&& b.roots@[slot.slot as int] is Objs
    &&& forall|j: int|
        0 <= j < a.roots@.len() && j != slot.slot ==> #[trigger] b.roots@[j] == a.roots@[j]
}

/// The arguments that `apply` hands on: those it was given but the last,
/// followed by the items of the last, which has to be a list.
pub open spec fn spread(h: Heap, arguments: Seq<GcObj>) -> Result<Seq<GcObj>, ErrorView> {
    if arguments.len() == 0 {
        Ok(Seq::empty())
    } else {
        match list_elems(h, arguments.last(), h.len()) {
            Ok(items) => Ok(arguments.drop_last() + items),
            Err(e) => Err(e),
        }
    }
}

/// The function that a value stands for as the callee of `apply` or
/// `funcall`.
pub open spec fn function_arg(o: GcObj) -> Result<Function, ErrorView> {
    match o@ {
        Object::LispFn(r) => Ok(Function::LispFn(r)),
        Object::SubrFn(r) => Ok(Function::SubrFn(r)),
        Object::Symbol(s) => Ok(Function::Symbol(s)),
        _ => Err(type_err(Type::Func, o)),
    }
}

/// The callee and the arguments that `apply` or `funcall` hands on when
/// it is called with the arguments `argv`: the first argument is the
/// callee, the others are its arguments, the last of them spread out in
/// the case of `apply`.
pub open spec fn retarget_spec(h: Heap, subr: BuiltIn, argv: Seq<GcObj>) -> Result<
    (Function, Seq<GcObj>),
    ErrorView,
> {
    match function_arg(arg_spec(argv, 0)) {
        Err(e) => Err(e),
        Ok(f) => {
            let rest = if argv.len() > 0 {
                argv.skip(1)
            } else {
                Seq::empty()
            };
            if subr == BuiltIn::Apply {
                match spread(h, rest) {
                    Ok(a) => Ok((f, a)),
                    Err(e) => Err(e),
                }
            } else {
                Ok((f, rest))
            }
        },
    }
}

/// The function that a call of `f` goes to at once: `f` itself, or, for
/// a symbol, what its function cell resolves to.
pub open spec fn direct_target(syms: Seq<SymbolCell>, f: Function) -> Option<Function> {
    match f {
        Function::Symbol(s) => resolve(syms, s, syms.len()),
        other => Some(other),
    }
}

/// Where a call of the subroutine with descriptor `d` ends, and with
/// which arguments: at the subroutine itself, with the arguments padded,
/// unless it is `apply` or `funcall`, which hand the call on. A call that
/// fails ends with the error and with the arguments that stand in its
/// root slot by then.
pub open spec fn subr_target(
    h: Heap,
    syms: Seq<SymbolCell>,
    d: SubrFn,
    argv: Seq<GcObj>,
    fuel: nat,
) -> Result<(Target, Seq<GcObj>), (ErrorView, Seq<GcObj>)>
    decreases fuel, 0nat,
{
    match arity_spec(d.args, argv.len() as int, d.name@) {
        Err(e) => Err((e, argv)),
        Ok(n) => {
            let filled = argv + nils(n);
            if d.subr.calls() {
                if fuel == 0 {
                    Err((ErrorView::Misc { message: chain_message() }, filled))
                } else {
                    match retarget_spec(h, d.subr, filled) {
                        Err(e) => Err((e, filled)),
                        Ok((f, a)) => chain_target(h, syms, f, a, (fuel - 1) as nat),
                    }
                }
            } else {
                Ok((Target::Native(d.subr), filled))
            }
        },
    }
}

/// Where a call of the function `f` with the arguments `argv` ends, and
/// with which arguments. A symbol stands for what its function cell
/// resolves to, and is void if that is nothing.
pub open spec fn chain_target(
    h: Heap,
    syms: Seq<SymbolCell>,
    f: Function,
    argv: Seq<GcObj>,
    fuel: nat,
) -> Result<(Target, Seq<GcObj>), (ErrorView, Seq<GcObj>)>
    decreases fuel, 1nat,
{
    match direct_target(syms, f) {
        Some(Function::LispFn(r)) => match arity_spec(
            h[r.idx as int].unwrap()->LispFn_0.args,
            argv.len() as int,
            "lambda"@,
        ) {
            Ok(n) => Ok((Target::ByteCode(r), argv + nils(n))),
            Err(e) => Err((e, argv)),
        },
        Some(Function::SubrFn(r)) => subr_target(
            h,
            syms,
            h[r.idx as int].unwrap()->SubrFn_0,
            argv,
            fuel,
        ),
        _ => Err(
            (
                ErrorView::VoidFunction {
                    sym: match f {
                        Function::Symbol(s) => s,
                        _ => Symbol { id: 0 },
                    },
                },
                argv,
            ),
        ),
    }
}

/// Whether a call of the function `f` with the arguments `argv` fails
/// before anything is written: for a void function, and for a wrong
/// number of arguments to the function that the call goes to at once.
pub open spec fn fails_at_once(
    h: Heap,
    syms: Seq<SymbolCell>,
    f: Function,
    argv: Seq<GcObj>,
) -> bool {
    match direct_target(syms, f) {
        Some(Function::LispFn(r)) => arity_spec(
            h[r.idx as int].unwrap()->LispFn_0.args,
            argv.len() as int,
            "lambda"@,
        ) is Err,
        Some(Function::SubrFn(r)) => arity_spec(
            h[r.idx as int].unwrap()->SubrFn_0.args,
            argv.len() as int,
            h[r.idx as int].unwrap()->SubrFn_0.name@,
        ) is Err,
        _ => true,
    }
}

/// What a call handed back, as a subroutine hands it back.
pub open spec fn native_res(res: Result<Outcome, Error>) -> Result<GcObj, Error> {
    match res {
        Ok(Outcome::Value(v)) => Ok(v),
        Ok(Outcome::ByteCode(_)) => Ok(GcObj::nil_spec()),
        Err(e) => Err(e),
    }
}

/// Whether the roots of the state `b` are those of the state `a` but for
/// what the root slot `slot` holds, which is a vector of values.
pub open spec fn roots_stepped(a: &Context, b: &Context, slot: Root) -> bool {
    &&& b.roots@.len() == a.roots@.len()
    &&& slot.slot < b.roots@.len()
    &&& b.roots@[slot.slot as int] is Objs
    &&& forall|j: int|
        0 <= j < a.roots@.len() && j != slot.slot ==> #[trigger] b.roots@[j] == a.roots@[j]
}

/// What a call does that ends as `t` says, with its arguments in the root
/// slot `slot`. A failure on the way leaves everything but the slot as it
/// was, and in the slot the arguments that the failure found there. A
/// call that ends at a byte-compiled function leaves the padded arguments
/// in the slot. A call that ends at a subroutine runs it on the padded
/// arguments, which stand in the slot from then on.
pub open spec fn call_post(
    before: &Context,
    t: Result<(Target, Seq<GcObj>), (ErrorView, Seq<GcObj>)>,
    slot: Root,
    after: &Context,
    res: Result<Outcome, Error>,
) -> bool {
    match t {
        Err((e, held)) => (res matches Err(x) && x@ == e) && stepped(before, after, slot)
            && after.roots@[slot.slot as int].objs() == held,
        Ok((Target::ByteCode(r), filled)) => (res matches Ok(Outcome::ByteCode(x)) && x == r)
            && stepped(before, after, slot) && after.roots@[slot.slot as int].objs() == filled,
        Ok((Target::Native(subr), filled)) => {
            &&& !(res matches Ok(Outcome::ByteCode(_)))
            &&& roots_stepped(before, after, slot)
            &&& after.roots@[slot.slot as int].objs() == filled
            &&& native_post(subr, filled, before, after.roots.refs(), after, native_res(res))
        },
    }
}

/// Being one step apart in a root slot carries over.
pub proof fn lemma_stepped_trans(a: &Context, b: &Context, c: &Context, slot: Root)
    requires
        stepped(a, b, slot),
        stepped(b, c, slot),
    ensures
        stepped(a, c, slot),
{
}

/// What holds of a call that began in the state `mid` holds of it as one
/// that began in the state `before`, when the two differ in the root slot
/// of the call only.
pub proof fn lemma_call_post_from(
    before: &Context,
    mid: &Context,
    t: Result<(Target, Seq<GcObj>), (ErrorView, Seq<GcObj>)>,
    slot: Root,
    after: &Context,
    res: Result<Outcome, Error>,
)
    requires
        stepped(before, mid, slot),
        call_post(mid, t, slot, after, res),
    ensures
        call_post(before, t, slot, after, res),
{
    match t {
        Ok((Target::Native(subr), filled)) => {
            lemma_native_post_frame(
                subr,
                filled,
                mid,
                before,
                after.roots.refs(),
                after,
                native_res(res),
            );
        },
        _ => {},
    }
}

/// The values of a vector but the first.
pub fn tail_objs(v: &Vec<GcObj>) -> (r: Vec<GcObj>)
    ensures
        r@ == if v@.len() > 0 {
            v@.skip(1)
        } else {
            Seq::<GcObj>::empty()
        },
{
    let mut r: Vec<GcObj> = Vec::new();
    let mut i: usize = 1;
    while i < v.len()
        invariant
            1 <= i,
            i <= v.len() || v.len() == 0,
            v.len() > 0 ==> r@ == v@.subrange(1, i as int),
            v.len() == 0 ==> r@ == Seq::<GcObj>::empty(),
        decreases v.len() - i,
    {
        r.push(v[i]);
        assert(r@ =~= v@.subrange(1, i + 1));
        i += 1;
    }
    proof {
        if v.len() > 0 {
            assert(v@.subrange(1, v@.len() as int) =~= v@.skip(1));
        }
    }
    r
}

impl Context {
    /// Puts a value at the end of the vector in a root slot.
    pub fn push_rooted(&mut self, r: Root, o: GcObj)
        requires
            old(self).wf(),
            old(self).roots.contains(r),
            old(self).roots@[r.slot as int] is Objs,
            old(self).valid(o),
        ensures
            final(self).wf(),
            stepped(old(self), final(self), r),
            final(self).roots@[r.slot as int].objs() == old(self).roots@[r.slot as int].objs().push(
                o,
            ),
    {
        self.roots.push_obj(r, o);
        proof {
            let before = old(self).roots@[r.slot as int].objs();
            lemma_seq_refs_push(before, o);
            assert forall|x: GcObj| #[trigger] self.roots.refs().contains(x) implies old(
                self,
            ).roots.refs().contains(x) || x == o by {
                let i = choose|i: int|
                    0 <= i < self.roots@.len() && i < self.roots@.len() && #[trigger] self.roots@[i].refs().contains(
                        x,
                    );
                if i == r.slot {
                    assert(seq_refs(before, before.len() as int).union(o.refs()).contains(x));
                    if x != o {
                        assert(old(self).roots@[i].refs().contains(x));
                    }
                } else {
                    assert(old(self).roots@[i].refs().contains(x));
                }
            }
            assert forall|x: GcObj| #[trigger] self.root_refs().contains(x) implies self.valid(x) by {
                if x != o {
                    assert(old(self).root_refs().contains(x));
                }
            }
        }
    }

    /// Checks the number of the arguments in a root slot against the
    /// requirements of a function named `name`, and pads them with `nil`
    /// up to its positional parameters.
    pub fn fill_args(&mut self, args: Root, spec: FnArgs, name: &str) -> (r: Result<(), Error>)
        requires
            old(self).wf(),
            old(self).roots.contains(args),
            old(self).roots@[args.slot as int] is Objs,
        ensures
            final(self).wf(),
            stepped(old(self), final(self), args),
            match r {
                Ok(_) => arity_spec(
                    spec,
                    old(self).roots@[args.slot as int].objs().len() as int,
                    name@,
                ) matches Ok(n) && final(self).roots@[args.slot as int].objs() == old(
                    self,
                ).roots@[args.slot as int].objs() + nils(n),
                Err(e) => arity_spec(
                    spec,
                    old(self).roots@[args.slot as int].objs().len() as int,
                    name@,
                ) == Err::<int, ErrorView>(e@) && final(self).roots@ == old(self).roots@,
            },
    {
        let n = self.bind_vec(args).len();
        let ghost given = self.roots@[args.slot as int].objs();
        match check_arity(spec, n, name) {
            Err(e) => Err(e),
            Ok(k) => {
                let mut i: u16 = 0;
                assert(given + nils(0) =~= given);
                while i < k
                    invariant
                        i <= k,
                        self.wf(),
                        stepped(old(self), self, args),
                        given == old(self).roots@[args.slot as int].objs(),
                        self.roots@[args.slot as int].objs() == given + nils(i as int),
                    decreases k - i,
                {
                    let ghost prev = *self;
                    self.push_rooted(args, GcObj::nil_obj());
                    proof {
                        lemma_stepped_trans(old(self), &prev, self, args);
                        assert((given + nils(i as int)).push(GcObj::nil_spec()) =~= given + nils(
                            i + 1,
                        ));
                    }
                    i += 1;
                }
                Ok(())
            },
        }
    }

    /// The arguments that `apply` hands on, from those it was given.
    pub fn spread_args(&self, arguments: &Vec<GcObj>) -> (r: Result<Vec<GcObj>, Error>)
        requires
            self.wf(),
            self.all_valid(arguments@),
        ensures
            match r {
                Ok(v) => spread(self.block@, arguments@) == Ok::<Seq<GcObj>, ErrorView>(v@)
                    && self.all_valid(v@),
                Err(e) => spread(self.block@, arguments@) == Err::<Seq<GcObj>, ErrorView>(e@),
            },
    {
        let n = arguments.len();
        if n == 0 {
            return Ok(Vec::new());
        }
        let items = match self.list_to_vec(arguments[n - 1]) {
            Ok(items) => items,
            Err(e) => {
                return Err(e);
            },
        };
        let mut out: Vec<GcObj> = Vec::new();
        let mut i: usize = 0;
        while i < n - 1
            invariant
                n == arguments.len(),
                n > 0,
                i <= n - 1,
                out@ == arguments@.take(i as int),
            decreases n - 1 - i,
        {
            out.push(arguments[i]);
            assert(out@ =~= arguments@.take(i + 1));
            i += 1;
        }
        assert(arguments@.take(n - 1) =~= arguments@.drop_last());
        let mut j: usize = 0;
        while j < items.len()
            invariant
                j <= items.len(),
                out@ == arguments@.drop_last() + items@.take(j as int),
            decreases items.len() - j,
        {
            out.push(items[j]);
            assert(out@ =~= arguments@.drop_last() + items@.take(j + 1));
            j += 1;
        }
        proof {
            assert(items@.take(items@.len() as int) =~= items@);
            assert forall|k: int| 0 <= k < out@.len() implies self.valid(#[trigger] out@[k]) by {
                if k < n - 1 {
                    assert(out@[k] == arguments@[k]);
                } else {
                    assert(out@[k] == items@[k - (n - 1)]);
                }
            }
        }
        Ok(out)
    }

    /// Replaces the arguments of `apply` or `funcall` in a root slot by
    /// those of the callee, and returns the callee. Nothing changes if
    /// the callee is no function or, for `apply`, the last argument no
    /// list.
    pub fn retarget(&mut self, subr: BuiltIn, args: Root) -> (r: Result<Function, Error>)
        requires
            old(self).wf(),
            old(self).roots.contains(args),
            old(self).roots@[args.slot as int] is Objs,
        ensures
            final(self).wf(),
            stepped(old(self), final(self), args),
            match r {
                Ok(f) => retarget_spec(
                    old(self).block@,
                    subr,
                    old(self).roots@[args.slot as int].objs(),
                ) matches Ok((g, a)) && g == f && final(self).roots@[args.slot as int].objs() == a
                    && f.as_object().wf() && final(self).valid(f.as_object().encode()),
                Err(e) => retarget_spec(
                    old(self).block@,
                    subr,
                    old(self).roots@[args.slot as int].objs(),
                ) == Err::<(Function, Seq<GcObj>), ErrorView>(e@) && final(self).roots@ == old(
                    self,
                ).roots@,
            },
    {
        let argv = copy_objs(self.bind_vec(args).as_slice());
        let callee = arg(&argv, 0);
        let f = match callee.as_function() {
            Ok(f) => f,
            Err(e) => {
                return Err(e);
            },
        };
        proof {
            lemma_decode_encode(callee);
        }
        let rest = tail_objs(&argv);
        proof {
            assert forall|k: int| 0 <= k < rest@.len() implies self.valid(#[trigger] rest@[k]) by {
                assert(rest@[k] == argv@[k + 1]);
            }
        }
        let next = match subr {
            BuiltIn::Apply => match self.spread_args(&rest) {
                Ok(a) => a,
                Err(e) => {
                    return Err(e);
                },
            },
            _ => rest,
        };
        proof {
            assert forall|o: GcObj| #[trigger] Rooted::Objs(next).refs().contains(o) implies self.valid(
                o,
            ) by {
                lemma_seq_refs_objs(next@, o);
                let k = choose|k: int| 0 <= k < next@.len() && next@[k] == o;
                assert(self.valid(next@[k]));
            }
        }
        self.set_root(args, Rooted::Objs(next));
        Ok(f)
    }
}

/// Calls the subroutine with descriptor `d` on the arguments in the root
/// slot `args`: checks their number, pads them with `nil`, and runs the
/// subroutine, or, for `apply` and `funcall`, calls on, through at most
/// `fuel` more of these.
pub fn subr_call(d: SubrFn, args: Root, cx: &mut Context, fuel: usize) -> (res: Result<
    Outcome,
    Error,
>)
    requires
        old(cx).wf(),
        old(cx).roots.contains(args),
        old(cx).roots@[args.slot as int] is Objs,
    ensures
        final(cx).wf(),
        call_post(
            old(cx),
            subr_target(
                old(cx).block@,
                old(cx).symbols@,
                d,
                old(cx).roots@[args.slot as int].objs(),
                fuel as nat,
            ),
            args,
            final(cx),
            res,
        ),
        arity_spec(d.args, old(cx).roots@[args.slot as int].objs().len() as int, d.name@) is Err
            ==> final(cx).roots@ == old(cx).roots@,
        res matches Ok(Outcome::Value(v)) ==> final(cx).valid(v),
    decreases fuel, 0nat,
{
    let ghost argv = cx.roots@[args.slot as int].objs();
    match cx.fill_args(args, d.args, d.name) {
        Err(e) => {
            return Err(e);
        },
        Ok(()) => {},
    }
    let ghost mid = *cx;
    if matches!(d.subr, BuiltIn::Apply | BuiltIn::Funcall) {
        if fuel == 0 {
            return Err(Error::Misc { message: String::from_str("call chain too long") });
        }
        match cx.retarget(d.subr, args) {
            Err(e) => {
                proof {
                    lemma_stepped_trans(old(cx), &mid, cx, args);
                }
                Err(e)
            },
            Ok(f) => {
                let ghost mid2 = *cx;
                let res = call_chain(f, args, cx, fuel - 1);
                proof {
                    lemma_stepped_trans(old(cx), &mid, &mid2, args);
                    lemma_call_post_from(
                        old(cx),
                        &mid2,
                        chain_target(
                            mid2.block@,
                            mid2.symbols@,
                            f,
                            mid2.roots@[args.slot as int].objs(),
                            (fuel - 1) as nat,
                        ),
                        args,
                        cx,
                        res,
                    );
                }
                res
            },
        }
    } else {
        match invoke(d.subr, args, cx) {
            Ok(v) => {
                proof {
                    lemma_native_post_frame(
                        d.subr,
                        mid.roots@[args.slot as int].objs(),
                        &mid,
                        old(cx),
                        mid.roots.refs(),
                        cx,
                        Ok(v),
                    );
                }
                Ok(Outcome::Value(v))
            },
            Err(e) => {
                proof {
                    lemma_native_post_frame(
                        d.subr,
                        mid.roots@[args.slot as int].objs(),
                        &mid,
                        old(cx),
                        mid.roots.refs(),
                        cx,
                        Err(e),
                    );
                }
                Err(e)
            },
        }
    }
}

/// Calls the function `f` on the arguments in the root slot `args`. A
/// byte-compiled callee is not run: its arguments are checked and padded,
/// and it is handed back for the interpreter to run.
pub fn call_chain(f: Function, args: Root, cx: &mut Context, fuel: usize) -> (res: Result<
    Outcome,
    Error,
>)
    requires
        old(cx).wf(),
        old(cx).roots.contains(args),
        old(cx).roots@[args.slot as int] is Objs,
        f.as_object().wf(),
        old(cx).valid(f.as_object().encode()),
    ensures
        final(cx).wf(),
        call_post(
            old(cx),
            chain_target(
                old(cx).block@,
                old(cx).symbols@,
                f,
                old(cx).roots@[args.slot as int].objs(),
                fuel as nat,
            ),
            args,
            final(cx),
            res,
        ),
        fails_at_once(
            old(cx).block@,
            old(cx).symbols@,
            f,
            old(cx).roots@[args.slot as int].objs(),
        ) ==> final(cx).roots@ == old(cx).roots@,
        res matches Ok(Outcome::Value(v)) ==> final(cx).valid(v),
    decreases fuel, 1nat,
{
    proof {
        lemma_decode_encode(f.as_object().encode());
        crate::object::tagged::lemma_encode_decode(f.as_object());
    }
    let direct = match f {
        Function::Symbol(s) => {
            let t = cx.symbols.follow_indirect(s);
            proof {
                match t {
                    Some(x) => {
                        let i = choose|i: int|
                            0 <= i < cx.symbols@.len() && (#[trigger] cx.symbols@[i]).func == Some(
                                x.as_object().encode(),
                            );
                        let g = x.as_object().encode();
                        assert(cx.symbols@[i].refs().contains(g));
                        assert(cx.symbols.refs().contains(g));
                        assert(cx.root_refs().contains(g));
                        crate::object::tagged::lemma_encode_decode(x.as_object());
                    },
                    None => {},
                }
            }
            t
        },
        other => Some(other),
    };
    match direct {
        Some(Function::LispFn(r)) => {
            let spec = cx.block.lisp_fn(r).args;
            match cx.fill_args(args, spec, "lambda") {
                Ok(()) => Ok(Outcome::ByteCode(r)),
                Err(e) => Err(e),
            }
        },
        Some(Function::SubrFn(r)) => {
            let d = *cx.block.subr(r);
            subr_call(d, args, cx, fuel)
        },
        _ => {
            let sym = match f {
                Function::Symbol(s) => s,
                _ => Symbol { id: 0 },
            };
            Err(Error::VoidFunction { sym })
        },
    }
}

impl Function {
    /// Calls the function on the arguments in the root slot `args`. A
    /// symbol stands for the function that it names in the end. The
    /// arguments are checked against the requirements of the callee and
    /// padded with `nil`; then a subroutine runs, and a byte-compiled
    /// callee is handed back for the interpreter to run.
    pub fn call(self, args: Root, cx: &mut Context) -> (res: Result<Outcome, Error>)
        requires
            old(cx).wf(),
            old(cx).roots.contains(args),
            old(cx).roots@[args.slot as int] is Objs,
            self.as_object().wf(),
            old(cx).valid(self.as_object().encode()),
        ensures
            final(cx).wf(),
            call_post(
                old(cx),
                chain_target(
                    old(cx).block@,
                    old(cx).symbols@,
                    self,
                    old(cx).roots@[args.slot as int].objs(),
                    MAX_CALL_CHAIN as nat,
                ),
                args,
                final(cx),
                res,
            ),
            fails_at_once(
                old(cx).block@,
                old(cx).symbols@,
                self,
                old(cx).roots@[args.slot as int].objs(),
            ) ==> final(cx).roots@ == old(cx).roots@,
            res matches Ok(Outcome::Value(v)) ==> final(cx).valid(v),
    {
        call_chain(self, args, cx, MAX_CALL_CHAIN)
    }
}

impl SubrFn {
    /// Calls the subroutine on the arguments in the root slot `args`:
    /// checks their number, pads them with `nil` up to the positional
    /// parameters, and invokes the native implementation.
    pub fn call(&self, args: Root, cx: &mut Context) -> (res: Result<Outcome, Error>)
        requires
            old(cx).wf(),
            old(cx).roots.contains(args),
            old(cx).roots@[args.slot as int] is Objs,
        ensures
            final(cx).wf(),
            call_post(
                old(cx),
                subr_target(
                    old(cx).block@,
                    old(cx).symbols@,
                    *self,
                    old(cx).roots@[args.slot as int].objs(),
                    MAX_CALL_CHAIN as nat,
                ),
                args,
                final(cx),
                res,
            ),
            arity_spec(
                self.args,
                old(cx).roots@[args.slot as int].objs().len() as int,
                self.name@,
            ) is Err ==> final(cx).roots@ == old(cx).roots@,
            res matches Ok(Outcome::Value(v)) ==> final(cx).valid(v),
    {
        subr_call(*self, args, cx, MAX_CALL_CHAIN)
    }
}

/// What a call handed back to `apply` or `funcall`, as a subroutine hands
/// it back.
pub open spec fn called_res(res: Result<Called, Error>) -> Result<GcObj, Error> {
    match res {
        Ok(Called::Value(v)) => Ok(v),
        Ok(Called::Interpret { .. }) => Ok(GcObj::nil_spec()),
        Err(e) => Err(e),
    }
}

/// What `apply` and `funcall` do once the arguments `argv` of the callee
/// are at hand, for a call that ends as `t` says. The arguments are
/// rooted while the call runs, and not afterwards. A failure on the way
/// changes nothing. A byte-compiled callee is handed back with its padded
/// arguments. A subroutine runs on the padded arguments.
pub open spec fn applied(
    before: &Context,
    t: Result<(Target, Seq<GcObj>), (ErrorView, Seq<GcObj>)>,
    after: &Context,
    res: Result<Called, Error>,
) -> bool {
    match t {
        Err((e, _)) => (res matches Err(x) && x@ == e) && crate::builtin::unchanged(before, after),
        Ok((Target::ByteCode(r), filled)) => (res matches Ok(Called::Interpret { func, args })
            && func == r && args@ == filled) && crate::builtin::unchanged(before, after),
        Ok((Target::Native(subr), filled)) => {
            &&& !(res matches Ok(Called::Interpret { .. }))
            &&& native_post(
                subr,
                filled,
                before,
                before.roots.refs().union(seq_refs(filled, filled.len() as int)),
                after,
                called_res(res),
            )
        },
    }
}

/// Roots the arguments, calls the function on them, and takes the root
/// off again.
fn call_rooted(function: Function, argv: Vec<GcObj>, cx: &mut Context) -> (res: Result<
    Called,
    Error,
>)
    requires
        old(cx).wf(),
        old(cx).all_valid(argv@),
        function.as_object().wf(),
        old(cx).valid(function.as_object().encode()),
    ensures
        final(cx).wf(),
        final(cx).roots@ == old(cx).roots@,
        applied(
            old(cx),
            chain_target(
                old(cx).block@,
                old(cx).symbols@,
                function,
                argv@,
                MAX_CALL_CHAIN as nat,
            ),
            final(cx),
            res,
        ),
        res matches Ok(Called::Value(v)) ==> final(cx).valid(v),
{
    let ghost given = argv@;
    let ghost t = chain_target(cx.block@, cx.symbols@, function, given, MAX_CALL_CHAIN as nat);
    proof {
        assert forall|o: GcObj| #[trigger] Rooted::Objs(argv).refs().contains(o) implies cx.valid(
            o,
        ) by {
            lemma_seq_refs_objs(argv@, o);
            let k = choose|k: int| 0 <= k < argv@.len() && argv@[k] == o;
            assert(cx.valid(argv@[k]));
        }
        lemma_seq_refs_push(cx.roots@, Rooted::Objs(argv));
    }
    let root = cx.root(Rooted::Objs(argv));
    let ghost mid = *cx;
    let res = call_chain(function, root, cx, MAX_CALL_CHAIN);
    let ghost last = *cx;
    let held = cx.unroot(root);
    proof {
        assert(cx.roots@ =~= old(cx).roots@) by {
            assert forall|j: int| 0 <= j < old(cx).roots@.len() implies cx.roots@[j] == old(
                cx,
            ).roots@[j] by {
                assert(last.roots@[j] == mid.roots@[j]);
            }
        }
        match t {
            Ok((Target::Native(subr), filled)) => {
                let rooted = old(cx).roots.refs().union(seq_refs(filled, filled.len() as int));
                assert(last.roots.refs() =~= rooted) by {
                    assert forall|o: GcObj| last.roots.refs().contains(o) <==> rooted.contains(
                        o,
                    ) by {
                        if last.roots.refs().contains(o) {
                            let i = choose|i: int|
                                0 <= i < last.roots@.len() && i < last.roots@.len() && #[trigger] last.roots@[i].refs().contains(
                                    o,
                                );
                            if i == root.slot {
                                lemma_seq_refs_objs(filled, o);
                                lemma_seq_refs_objs(last.roots@[i].objs(), o);
                            } else {
                                assert(last.roots@[i] == mid.roots@[i]);
                                assert(old(cx).roots@[i].refs().contains(o));
                            }
                        }
                        if rooted.contains(o) {
                            if old(cx).roots.refs().contains(o) {
                                let i = choose|i: int|
                                    0 <= i < old(cx).roots@.len() && i < old(cx).roots@.len()
                                        && #[trigger] old(cx).roots@[i].refs().contains(o);
                                assert(last.roots@[i] == mid.roots@[i]);
                                assert(last.roots@[i].refs().contains(o));
                            } else {
                                let i = root.slot as int;
                                lemma_seq_refs_objs(filled, o);
                                lemma_seq_refs_objs(last.roots@[i].objs(), o);
                                assert(last.roots@[i].refs().contains(o));
                            }
                        }
                    }
                }
                lemma_native_post_frame(
                    subr,
                    filled,
                    &mid,
                    old(cx),
                    rooted,
                    &last,
                    native_res(res),
                );
                lemma_native_post_after(subr, filled, old(cx), rooted, &last, cx, native_res(res));
            },
            _ => {},
        }
    }
    match res {
        Ok(Outcome::Value(v)) => Ok(Called::Value(v)),
        Ok(Outcome::ByteCode(r)) => match held {
            Rooted::Objs(v) => Ok(Called::Interpret { func: r, args: v }),
            _ => vstd::pervasive::unreached(),
        },
        Err(e) => Err(e),
    }
}

/// What a subroutine did holds of the state that it left as of any other
/// that differs from it in the roots only.
pub proof fn lemma_native_post_after(
    subr: BuiltIn,
    argv: Seq<GcObj>,
    before: &Context,
    rooted: Set<GcObj>,
    a: &Context,
    b: &Context,
    res: Result<GcObj, Error>,
)
    requires
        a.block == b.block,
        a.symbols == b.symbols,
        a.env == b.env,
        a.features == b.features,
        a.threshold == b.threshold,
        native_post(subr, argv, before, rooted, a, res),
    ensures
        native_post(subr, argv, before, rooted, b, res),
{
    let a0 = arg_spec(argv, 0);
    if subr == BuiltIn::SymbolName {
        match a0@ {
            Object::Symbol(s) => {
                let text = choose|text: String|
                    text@ == before.symbols.name_of(s) && #[trigger] crate::builtin::string_added(
                        before,
                        rooted,
                        a,
                        text,
                        crate::builtin::value_of(res),
                    );
                assert(crate::builtin::string_added(
                    before,
                    rooted,
                    b,
                    text,
                    crate::builtin::value_of(res),
                ));
            },
            _ => {},
        }
    }
}

/// What `apply` does: it spreads the last of its arguments, which has to
/// be a list, onto the others, and calls the function on them.
pub open spec fn apply_post(
    before: &Context,
    function: Function,
    arguments: Seq<GcObj>,
    after: &Context,
    res: Result<Called, Error>,
) -> bool {
    match spread(before.block@, arguments) {
        Err(e) => (res matches Err(x) && x@ == e) && crate::builtin::unchanged(before, after),
        Ok(argv) => applied(
            before,
            chain_target(before.block@, before.symbols@, function, argv, MAX_CALL_CHAIN as nat),
            after,
            res,
        ),
    }
}

/// Calls `function` on the arguments, of which the last is a list that
/// is spread out: its items are arguments, in its place.
pub fn apply(function: Function, arguments: &[GcObj], cx: &mut Context) -> (res: Result<
    Called,
    Error,
>)
    requires
        old(cx).wf(),
        old(cx).all_valid(arguments@),
        function.as_object().wf(),
        old(cx).valid(function.as_object().encode()),
    ensures
        final(cx).wf(),
        final(cx).roots@ == old(cx).roots@,
        apply_post(old(cx), function, arguments@, final(cx), res),
        res matches Ok(Called::Value(v)) ==> final(cx).valid(v),
{
    let given = copy_objs(arguments);
    let args = match cx.spread_args(&given) {
        Ok(args) => args,
        Err(e) => {
            return Err(e);
        },
    };
    call_rooted(function, args, cx)
}

/// Calls `function` on the arguments.
pub fn funcall(function: Function, arguments: &[GcObj], cx: &mut Context) -> (res: Result<
    Called,
    Error,
>)
    requires
        old(cx).wf(),
        old(cx).all_valid(arguments@),
        function.as_object().wf(),
        old(cx).valid(function.as_object().encode()),
    ensures
        final(cx).wf(),
        final(cx).roots@ == old(cx).roots@,
        applied(
            old(cx),
            chain_target(
                old(cx).block@,
                old(cx).symbols@,
                function,
                arguments@,
                MAX_CALL_CHAIN as nat,
            ),
            final(cx),
            res,
        ),
        res matches Ok(Called::Value(v)) ==> final(cx).valid(v),
{
    let args = copy_objs(arguments);
    call_rooted(function, args, cx)
}

} // verus!
