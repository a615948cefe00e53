//! The virtual machine: its errors and how they are reported, compile-time scopes (locals,
//! arguments and captured variables), and the run-time bookkeeping of open upvalues and call
//! frames.
use hashbrown::HashMap;
use std::collections::BTreeMap;
use vstd::prelude::*;
use vstd::std_specs::iter::IteratorSpec;
use vstd::string::StringExecFns;

use vstd::string::StringSliceAdditionalSpecFns;

use crate::byte_code::{
    i16_bytes, operands_fit, spec_decode, spec_encode, u16_bytes, ByteCode, JumpOffset, OpCode, OpCodeError,
    OpCodeTypes,
};
use crate::codemap::{spec_index_lines, spec_lookup, Codemap};
use crate::decimal::{decimal, decimal_text};
use crate::gc::{
    bytes_after_sweep, freed_slots, live, marks_closed, lemma_reachable_ignores_marks, lemma_reachable_is_marked,
    lemma_reachable_more_roots, marked, marked_set, next_threshold, only_marks_added, reachable,
    points_to, reachable_within, swept_slots, tricolor, with_reachable_marks, GcRef, Heap,
};
use crate::interner::{default_hasher, str_hash, Interner, StrId, StringTable};
use crate::object::{
    field_entries, spec_refs, spec_size, Obj, ObjBoundMethod, ObjClass, ObjClosure, ObjFunction,
    ObjKind, ObjString, ObjUpvalue, UpvalueLocation,
};
use crate::value::Value;
use crate::parser::{
    is_char_range, parse_error_message, AstExpression, AstIdent, AstLiteral, AstStmt,
    ClassDeclaration, Expression, ForStmt, FunDeclaration, IfStmt, LogicalExpression, ParseError,
    Parser, Span, Stmt, StmtDeclaration, WhileStmt,
};
use crate::value::ValueTypes;

verus! {

broadcast use vstd::std_specs::btree::group_btree_axioms;

// ---------------------------------------------------------------------------
// Names
// ---------------------------------------------------------------------------

/// Whether two strings have the same text: their UTF-8 bytes are compared one by one.
pub(crate) fn str_eq(a: &str, b: &str) -> (r: bool)
    ensures
        r == (a@ == b@),
{
    let x = a.as_bytes();
    let y = b.as_bytes();
    proof {
        vstd::utf8::encode_utf8_decode_utf8(a@);
        vstd::utf8::encode_utf8_decode_utf8(b@);
    }
    if x.len() != y.len() {
        return false;
    }
    let mut i: usize = 0;
    while i < x.len()
        invariant
            0 <= i <= x@.len(),
            x@.len() == y@.len(),
            x@ == a.spec_bytes(),
            y@ == b.spec_bytes(),
            forall|k: int| 0 <= k < i ==> x@[k] == y@[k],
        decreases x@.len() - i,
    {
        if x[i] != y[i] {
            return false;
        }
        i = i + 1;
    }
    assert(x@ =~= y@);
    true
}

/// The first position of `x` in `ns`.
pub open spec fn first_index_of(ns: Seq<Seq<char>>, x: Seq<char>) -> Option<int>
    decreases ns.len(),
{
    if ns.len() == 0 {
        None
    } else {
        match first_index_of(ns.drop_last(), x) {
            Some(i) => Some(i),
            None => if ns.last() == x {
                Some(ns.len() - 1)
            } else {
                None
            },
        }
    }
}

/// The last position of `x` in `ns`.
pub open spec fn last_index_of(ns: Seq<Seq<char>>, x: Seq<char>) -> Option<int>
    decreases ns.len(),
{
    if ns.len() == 0 {
        None
    } else if ns.last() == x {
        Some(ns.len() - 1)
    } else {
        last_index_of(ns.drop_last(), x)
    }
}

proof fn lemma_first_index_of(ns: Seq<Seq<char>>, x: Seq<char>)
    ensures
        first_index_of(ns, x) matches Some(i) ==> 0 <= i < ns.len() && ns[i] == x && forall|j: int|
            0 <= j < i ==> ns[j] != x,
        first_index_of(ns, x) is None ==> forall|j: int| 0 <= j < ns.len() ==> ns[j] != x,
    decreases ns.len(),
{
    if ns.len() > 0 {
        let d = ns.drop_last();
        lemma_first_index_of(d, x);
        assert forall|j: int| 0 <= j < d.len() implies d[j] == ns[j] by {}
    }
}

proof fn lemma_last_index_of(ns: Seq<Seq<char>>, x: Seq<char>)
    ensures
        last_index_of(ns, x) matches Some(i) ==> 0 <= i < ns.len() && ns[i] == x && forall|j: int|
            i < j < ns.len() ==> ns[j] != x,
        last_index_of(ns, x) is None ==> forall|j: int| 0 <= j < ns.len() ==> ns[j] != x,
    decreases ns.len(),
{
    if ns.len() > 0 {
        let d = ns.drop_last();
        lemma_last_index_of(d, x);
        assert forall|j: int| 0 <= j < d.len() implies d[j] == ns[j] by {}
    }
}

// ---------------------------------------------------------------------------
// Scope types
// ---------------------------------------------------------------------------

/// Where a captured variable lives in the enclosing function: one of its local slots,
/// or one of its own captured variables.
#[derive(Debug, PartialEq, Eq, Structural, Clone, Copy)]
pub enum UpvalueRef {
    Local(usize),
    Upvalue(usize),
}

/// What kind of code a scope compiles.
#[derive(Clone, Copy, PartialEq, Eq, Structural, Debug)]
pub enum FunctionType {
    Script,
    Function,
    Method,
    Initializer,
}

/// The class whose body is being compiled.
#[derive(Clone, Copy, PartialEq, Eq, Structural, Debug)]
pub struct ClassContext {
    pub has_superclass: bool,
}

/// The compile-time scope of one function: its arguments (slot 0 first), its block-nested
/// locals with their depths, and the variables it captures; `parent` is the scope of the
/// enclosing function. The boolean beside a name records whether a nested function captured it.
pub struct LexicalScope<'a> {
    pub parent: Option<Box<LexicalScope<'a>>>,
    pub args: Vec<(&'a str, bool)>,
    pub locals: Vec<(&'a str, usize, bool)>,
    pub upvalues: Vec<(&'a str, UpvalueRef)>,
    pub block_depth: usize,
    pub name: Option<String>,
    pub function_type: FunctionType,
    pub enclosing_class: Option<ClassContext>,
}

/// The names of a scope's arguments.
pub open spec fn arg_names<'a>(args: Seq<(&'a str, bool)>) -> Seq<Seq<char>> {
    args.map_values(|a: (&'a str, bool)| a.0@)
}

/// The names of a scope's locals.
pub open spec fn local_names<'a>(locals: Seq<(&'a str, usize, bool)>) -> Seq<Seq<char>> {
    locals.map_values(|l: (&'a str, usize, bool)| l.0@)
}

/// The names of a scope's captured variables.
pub open spec fn upvalue_names<'a>(ups: Seq<(&'a str, UpvalueRef)>) -> Seq<Seq<char>> {
    ups.map_values(|u: (&'a str, UpvalueRef)| u.0@)
}

/// The slot of `name` in scope `s`: the first argument of that name, else the most recently
/// declared local of that name, counted after the arguments.
pub open spec fn spec_resolve_local<'a>(s: LexicalScope<'a>, name: Seq<char>) -> Option<int> {
    match first_index_of(arg_names(s.args@), name) {
        Some(i) => Some(i),
        None => match last_index_of(local_names(s.locals@), name) {
            Some(j) => Some(s.args@.len() + j),
            None => None,
        },
    }
}

/// Every scope of the chain has room for its slot numbers in a `usize`.
pub open spec fn slots_fit<'a>(s: LexicalScope<'a>) -> bool
    decreases s,
{
    &&& s.args@.len() + s.locals@.len() < usize::MAX
    &&& match s.parent {
        Some(p) => slots_fit(*p),
        None => true,
    }
}

/// `n` is `o` after capturing `name` in `o`: the argument or local that `name` resolves to
/// is marked as captured, and nothing else changes.
pub open spec fn spec_capture<'a>(o: LexicalScope<'a>, n: LexicalScope<'a>, name: Seq<char>) -> bool {
    &&& n.parent == o.parent
    &&& n.upvalues == o.upvalues
    &&& n.block_depth == o.block_depth
    &&& n.name == o.name
    &&& n.function_type == o.function_type
    &&& n.enclosing_class == o.enclosing_class
    &&& match first_index_of(arg_names(o.args@), name) {
        Some(i) => n.args@ == o.args@.update(i, (o.args@[i].0, true)) && n.locals == o.locals,
        None => n.args == o.args && match last_index_of(local_names(o.locals@), name) {
            Some(j) => n.locals@ == o.locals@.update(j, (o.locals@[j].0, o.locals@[j].1, true)),
            None => n.locals == o.locals,
        },
    }
}

/// What `resolve_upvalue(name)` answers in scope `s`: the position of a captured variable of
/// that name and where it lives; a new capture of a slot of the enclosing function, or of one
/// of its captured variables, is numbered after the existing ones.
pub open spec fn spec_resolve_upvalue<'a>(s: LexicalScope<'a>, name: Seq<char>) -> Option<
    (int, UpvalueRef),
>
    decreases s,
{
    match first_index_of(upvalue_names(s.upvalues@), name) {
        Some(i) => Some((i, s.upvalues@[i].1)),
        None => match s.parent {
            None => None,
            Some(p) => match spec_resolve_local(*p, name) {
                Some(idx) => Some((s.upvalues@.len() as int, UpvalueRef::Local(idx as usize))),
                None => match spec_resolve_upvalue(*p, name) {
                    Some((i, _)) => Some(
                        (s.upvalues@.len() as int, UpvalueRef::Upvalue(i as usize)),
                    ),
                    None => None,
                },
            },
        },
    }
}

/// `n` is `o` after `resolve_upvalue(name)`: a new capture is appended to the captured
/// variables of each function between the use and the declaration, and the declaring slot
/// is marked as captured; a name already captured, or found nowhere, changes nothing.
pub open spec fn spec_resolve_step<'a>(o: LexicalScope<'a>, n: LexicalScope<'a>, name: &'a str) -> bool
    decreases o,
{
    &&& n.args == o.args
    &&& n.locals == o.locals
    &&& n.block_depth == o.block_depth
    &&& n.name == o.name
    &&& n.function_type == o.function_type
    &&& n.enclosing_class == o.enclosing_class
    &&& match first_index_of(upvalue_names(o.upvalues@), name@) {
        Some(_) => n == o,
        None => match o.parent {
            None => n == o,
            Some(op) => match n.parent {
                None => false,
                Some(np) => match spec_resolve_local(*op, name@) {
                    Some(idx) => n.upvalues@ == o.upvalues@.push((name, UpvalueRef::Local(idx as usize)))
                        && spec_capture(*op, *np, name@),
                    None => match spec_resolve_upvalue(*op, name@) {
                        Some((i, _)) => n.upvalues@ == o.upvalues@.push(
                            (name, UpvalueRef::Upvalue(i as usize)),
                        ) && spec_resolve_step(*op, *np, name),
                        None => n == o,
                    },
                },
            },
        },
    }
}

/// Where the trailing run of locals deeper than `depth` begins.
pub open spec fn deeper_start<'a>(locals: Seq<(&'a str, usize, bool)>, depth: int) -> int
    decreases locals.len(),
{
    if locals.len() == 0 || locals.last().1 <= depth {
        locals.len() as int
    } else {
        deeper_start(locals.drop_last(), depth)
    }
}

/// Where the trailing run of locals at depth `depth` or deeper begins.
pub open spec fn block_start<'a>(locals: Seq<(&'a str, usize, bool)>, depth: int) -> int
    decreases locals.len(),
{
    if locals.len() == 0 || locals.last().1 < depth {
        locals.len() as int
    } else {
        block_start(locals.drop_last(), depth)
    }
}

/// Where the trailing run of locals at exactly depth `depth` begins.
pub open spec fn same_depth_start<'a>(locals: Seq<(&'a str, usize, bool)>, depth: int) -> int
    decreases locals.len(),
{
    if locals.len() == 0 || locals.last().1 != depth {
        locals.len() as int
    } else {
        same_depth_start(locals.drop_last(), depth)
    }
}

proof fn lemma_run_starts<'a>(locals: Seq<(&'a str, usize, bool)>, depth: int)
    ensures
        0 <= deeper_start(locals, depth) <= locals.len(),
        0 <= block_start(locals, depth) <= locals.len(),
        0 <= same_depth_start(locals, depth) <= locals.len(),
        forall|k: int| deeper_start(locals, depth) <= k < locals.len() ==> locals[k].1 > depth,
        forall|k: int| block_start(locals, depth) <= k < locals.len() ==> locals[k].1 >= depth,
        forall|k: int| same_depth_start(locals, depth) <= k < locals.len() ==> locals[k].1 == depth,
        deeper_start(locals, depth) == 0 || locals[deeper_start(locals, depth) - 1].1 <= depth,
        block_start(locals, depth) == 0 || locals[block_start(locals, depth) - 1].1 < depth,
        same_depth_start(locals, depth) == 0 || locals[same_depth_start(locals, depth) - 1].1
            != depth,
    decreases locals.len(),
{
    if locals.len() > 0 {
        let d = locals.drop_last();
        lemma_run_starts(d, depth);
        assert forall|j: int| 0 <= j < d.len() implies d[j] == locals[j] by {}
    }
}

/// The captured variables of `ups` that live in a local slot of the enclosing function,
/// in order, with their slots.
pub open spec fn local_upvalues<'a>(ups: Seq<(&'a str, UpvalueRef)>) -> Seq<(&'a str, usize)>
    decreases ups.len(),
{
    if ups.len() == 0 {
        Seq::empty()
    } else {
        let rest = local_upvalues(ups.drop_last());
        match ups.last().1 {
            UpvalueRef::Local(i) => rest.push((ups.last().0, i)),
            UpvalueRef::Upvalue(_) => rest,
        }
    }
}

/// The name a scope reports: its own, or `<script>` at the top level.
pub open spec fn spec_scope_name(name: Option<String>) -> Seq<char> {
    match name {
        Some(n) => n@,
        None => "<script>"@,
    }
}

/// The name of a function declared as `name` inside a scope named `parent` (`None` at the top).
pub open spec fn spec_nested_name(parent: Option<String>, name: Seq<char>) -> Seq<char> {
    match parent {
        Some(p) => p@ + "/"@ + name,
        None => name,
    }
}

/// `n` is the scope entered from `o` for a function or method with slot 0 named `slot0`,
/// A well-formed scope: its locals lie at the current block depth or shallower, in the order
/// of their depths, and so in the scope of each enclosing function.
pub open spec fn scope_wf<'a>(s: LexicalScope<'a>) -> bool
    decreases s,
{
    &&& forall|k: int| 0 <= k < s.locals@.len() ==> #[trigger] s.locals@[k].1 <= s.block_depth
    &&& forall|i: int, j: int|
        0 <= i < j < s.locals@.len() ==> #[trigger] s.locals@[i].1 <= #[trigger] s.locals@[j].1
    &&& match s.parent {
        Some(p) => scope_wf(*p),
        None => true,
    }
}

/// arguments `args`, named `name`, of kind `ft`, inside class context `class`.
pub open spec fn spec_entered<'a>(
    o: LexicalScope<'a>,
    n: LexicalScope<'a>,
    slot0: &'a str,
    args: Seq<&'a str>,
    name: Seq<char>,
    ft: FunctionType,
    class: Option<ClassContext>,
) -> bool {
    &&& n.parent == Some(Box::new(o))
    &&& n.args@ == seq![(slot0, false)] + args.map_values(|a: &'a str| (a, false))
    &&& n.locals@ == Seq::<(&'a str, usize, bool)>::empty()
    &&& n.upvalues@ == Seq::<(&'a str, UpvalueRef)>::empty()
    &&& n.block_depth == o.block_depth
    &&& n.name matches Some(nm) && nm@ == spec_nested_name(o.name, name)
    &&& n.function_type == ft
    &&& n.enclosing_class == class
}

impl<'a> LexicalScope<'a> {
    /// The name of the function this scope compiles.
    pub fn name(&self) -> (r: &str)
        ensures
            r@ == spec_scope_name(self.name),
    {
        match &self.name {
            Some(n) => n.as_str(),
            None => "<script>",
        }
    }

    /// Whether no block is open.
    pub fn is_toplevel(&self) -> (r: bool)
        ensures
            r == (self.block_depth == 0),
    {
        self.block_depth == 0
    }

    /// What kind of code this scope compiles.
    pub fn function_type(&self) -> (r: FunctionType)
        ensures
            r == self.function_type,
    {
        self.function_type
    }

    /// The scope of the top-level script.
    pub fn root() -> (r: Self)
        ensures
            scope_wf(r),
            r.parent is None,
            r.args@ == Seq::<(&'a str, bool)>::empty(),
            r.locals@ == Seq::<(&'a str, usize, bool)>::empty(),
            r.upvalues@ == Seq::<(&'a str, UpvalueRef)>::empty(),
            r.block_depth == 0,
            r.name is None,
            r.function_type == FunctionType::Script,
            r.enclosing_class is None,
    {
        LexicalScope {
            parent: None,
            args: Vec::new(),
            locals: Vec::new(),
            upvalues: Vec::new(),
            block_depth: 0,
            name: None,
            function_type: FunctionType::Script,
            enclosing_class: None,
        }
    }

    /// The slots of a new function: `slot0` first, then the arguments, none captured.
    fn slots(slot0: &'a str, args: &[&'a str]) -> (r: Vec<(&'a str, bool)>)
        ensures
            r@ == seq![(slot0, false)] + args@.map_values(|a: &'a str| (a, false)),
    {
        let mut a: Vec<(&'a str, bool)> = Vec::new();
        a.push((slot0, false));
        let mut i: usize = 0;
        while i < args.len()
            invariant
                0 <= i <= args@.len(),
                a@ == seq![(slot0, false)] + args@.take(i as int).map_values(|x: &'a str| (x, false)),
            decreases args@.len() - i,
        {
            a.push((args[i], false));
            i = i + 1;
            assert(args@.take(i as int).drop_last() == args@.take(i - 1));
            assert(a@ =~= seq![(slot0, false)] + args@.take(i as int).map_values(
                |x: &'a str| (x, false),
            ));
        }
        assert(args@.take(args@.len() as int) == args@);
        a
    }

    /// The name of a function declared as `name` in this scope.
    fn nested_name(&self, name: &str) -> (r: String)
        ensures
            r@ == spec_nested_name(self.name, name@),
    {
        match &self.name {
            Some(p) => p.clone().concat("/").concat(name),
            None => name.to_owned(),
        }
    }

    /// Enters the scope of a function named `name` with arguments `args`; slot 0 holds the
    /// function itself. The current scope becomes its parent.
    pub fn function_decl(&mut self, name: &'a str, args: &[&'a str])
        ensures
            scope_wf(*old(self)) ==> scope_wf(*final(self)),
            spec_entered(
                *old(self),
                *final(self),
                name,
                args@,
                name@,
                FunctionType::Function,
                old(self).enclosing_class,
            ),
    {
        let new_name = self.nested_name(name);
        let mut scope = LexicalScope {
            parent: None,
            args: Self::slots(name, args),
            locals: Vec::new(),
            upvalues: Vec::new(),
            block_depth: self.block_depth,
            name: Some(new_name),
            function_type: FunctionType::Function,
            enclosing_class: self.enclosing_class,
        };
        core::mem::swap(self, &mut scope);
        self.parent = Some(Box::new(scope));
    }

    /// Enters the scope of a method named `name` with arguments `args`; slot 0 holds `this`.
    /// The method is an initializer where `is_init` holds.
    pub fn method_decl(
        &mut self,
        name: &'a str,
        args: &[&'a str],
        is_init: bool,
        has_superclass: bool,
    )
        ensures
            scope_wf(*old(self)) ==> scope_wf(*final(self)),
            spec_entered(
                *old(self),
                *final(self),
                "this",
                args@,
                name@,
                if is_init {
                    FunctionType::Initializer
                } else {
                    FunctionType::Method
                },
                Some(ClassContext { has_superclass }),
            ),
    {
        let function_type = if is_init {
            FunctionType::Initializer
        } else {
            FunctionType::Method
        };
        let new_name = self.nested_name(name);
        let mut scope = LexicalScope {
            parent: None,
            args: Self::slots("this", args),
            locals: Vec::new(),
            upvalues: Vec::new(),
            block_depth: self.block_depth,
            name: Some(new_name),
            function_type,
            enclosing_class: Some(ClassContext { has_superclass }),
        };
        core::mem::swap(self, &mut scope);
        self.parent = Some(Box::new(scope));
    }

    /// Whether a class body is being compiled.
    pub fn in_class(&self) -> (r: bool)
        ensures
            r == self.enclosing_class is Some,
    {
        self.enclosing_class.is_some()
    }

    /// Whether the class being compiled has a superclass.
    pub fn has_superclass(&self) -> (r: bool)
        ensures
            r == (self.enclosing_class matches Some(c) && c.has_superclass),
    {
        match self.enclosing_class {
            Some(c) => c.has_superclass,
            None => false,
        }
    }

    /// Records that a class body, with or without a superclass, is being compiled.
    pub fn set_class_context(&mut self, has_superclass: bool)
        ensures
            final(self).enclosing_class == Some(ClassContext { has_superclass }),
            final(self).parent == old(self).parent,
            final(self).args == old(self).args,
            final(self).locals == old(self).locals,
            final(self).upvalues == old(self).upvalues,
            final(self).block_depth == old(self).block_depth,
            final(self).name == old(self).name,
            final(self).function_type == old(self).function_type,
    {
        self.enclosing_class = Some(ClassContext { has_superclass });
    }

    /// Leaves a function's scope: the enclosing scope, as the function's compilation left it,
    /// becomes current again.
    pub fn leave_function(&mut self)
        requires
            old(self).parent is Some,
        ensures
            scope_wf(*old(self)) ==> scope_wf(*final(self)),
            *final(self) == *old(self).parent->0,
    {
        let parent = self.parent.take().unwrap();
        *self = *parent;
    }

    /// Opens a block.
    pub fn enter_block(&mut self)
        requires
            old(self).block_depth < usize::MAX,
        ensures
            scope_wf(*old(self)) ==> scope_wf(*final(self)),
            scope_wf(*old(self)) ==> same_depth_start(final(self).locals@, final(self).block_depth as int)
                == final(self).locals@.len(),
            final(self).block_depth == old(self).block_depth + 1,
            final(self).parent == old(self).parent,
            final(self).args == old(self).args,
            final(self).locals == old(self).locals,
            final(self).upvalues == old(self).upvalues,
            final(self).name == old(self).name,
            final(self).function_type == old(self).function_type,
            final(self).enclosing_class == old(self).enclosing_class,
    {
        self.block_depth = self.block_depth + 1;
    }

    /// Closes a block: the locals declared deeper than the enclosing depth are dropped.
    pub fn leave_block(&mut self)
        requires
            old(self).block_depth > 0,
        ensures
            scope_wf(*old(self)) ==> scope_wf(*final(self)),
            final(self).block_depth == old(self).block_depth - 1,
            final(self).locals@ == old(self).locals@.take(
                deeper_start(old(self).locals@, old(self).block_depth - 1),
            ),
            final(self).parent == old(self).parent,
            final(self).args == old(self).args,
            final(self).upvalues == old(self).upvalues,
            final(self).name == old(self).name,
            final(self).function_type == old(self).function_type,
            final(self).enclosing_class == old(self).enclosing_class,
    {
        self.block_depth = self.block_depth - 1;
        let ghost d = self.block_depth as int;
        let ghost l0 = self.locals@;
        loop
            invariant
                self.block_depth == d,
                d == old(self).block_depth - 1,
                l0 == old(self).locals@,
                deeper_start(self.locals@, d) == deeper_start(l0, d),
                self.locals@ == l0.take(self.locals@.len() as int),
                self.locals@.len() <= l0.len(),
                self.parent == old(self).parent,
                self.args == old(self).args,
                self.upvalues == old(self).upvalues,
                self.name == old(self).name,
                self.function_type == old(self).function_type,
                self.enclosing_class == old(self).enclosing_class,
            ensures
                self.locals@ == l0.take(deeper_start(l0, d)),
            decreases self.locals@.len(),
        {
            let n = self.locals.len();
            if n > 0 && self.locals[n - 1].1 > self.block_depth {
                let ghost before = self.locals@;
                self.locals.pop();
                assert(self.locals@ == before.drop_last());
                assert(l0.take(self.locals@.len() as int) == before.take(n - 1));
            } else {
                assert(deeper_start(self.locals@, d) == self.locals@.len());
                break;
            }
        }
        proof {
            lemma_run_starts(l0, d);
            let ds = deeper_start(l0, d);
            if scope_wf(*old(self)) {
                assert forall|k: int| 0 <= k < self.locals@.len() implies #[trigger] self.locals@[k].1
                    <= self.block_depth by {
                    assert(self.locals@[k] == l0[k]);
                    assert(l0[k].1 <= l0[ds - 1].1);
                }
                assert forall|i: int, j: int|
                    0 <= i < j < self.locals@.len() implies #[trigger] self.locals@[i].1
                    <= #[trigger] self.locals@[j].1 by {
                    assert(self.locals@[i] == l0[i]);
                    assert(self.locals@[j] == l0[j]);
                }
            }
        }
    }

    /// Declares a local in the current block and returns its slot.
    pub fn new_local(&mut self, name: &'a str) -> (r: usize)
        requires
            old(self).args@.len() + old(self).locals@.len() + 1 < usize::MAX,
        ensures
            scope_wf(*old(self)) ==> scope_wf(*final(self)),
            final(self).locals@ == old(self).locals@.push((name, old(self).block_depth, false)),
            r == old(self).args@.len() + old(self).locals@.len(),
            final(self).parent == old(self).parent,
            final(self).args == old(self).args,
            final(self).upvalues == old(self).upvalues,
            final(self).block_depth == old(self).block_depth,
            final(self).name == old(self).name,
            final(self).function_type == old(self).function_type,
            final(self).enclosing_class == old(self).enclosing_class,
    {
        self.locals.push((name, self.block_depth, false));
        self.args.len() + self.locals.len() - 1
    }

    /// The captured variables that live in a local slot of the enclosing function, with
    /// their slots, in the order they were captured.
    pub fn iter_local_upvalues(&self) -> (r: Vec<(&'a str, usize)>)
        ensures
            r@ == local_upvalues(self.upvalues@),
    {
        let mut r: Vec<(&'a str, usize)> = Vec::new();
        let mut i: usize = 0;
        while i < self.upvalues.len()
            invariant
                0 <= i <= self.upvalues@.len(),
                r@ == local_upvalues(self.upvalues@.take(i as int)),
            decreases self.upvalues@.len() - i,
        {
            let (name, value) = self.upvalues[i];
            match value {
                UpvalueRef::Local(idx) => r.push((name, idx)),
                UpvalueRef::Upvalue(_) => {},
            }
            i = i + 1;
            assert(self.upvalues@.take(i as int).drop_last() == self.upvalues@.take(i - 1));
        }
        assert(self.upvalues@.take(self.upvalues@.len() as int) == self.upvalues@);
        r
    }

    /// The locals of the innermost block, most recent first, with their captured flags.
    pub fn iter_locals_in_block_rev(&self) -> (r: Vec<(&'a str, bool)>)
        ensures
            r@ == self.locals@.subrange(
                same_depth_start(self.locals@, self.block_depth as int),
                self.locals@.len() as int,
            ).reverse().map_values(|l: (&'a str, usize, bool)| (l.0, l.2)),
    {
        let ghost ls = self.locals@;
        let ghost start = same_depth_start(ls, self.block_depth as int);
        proof {
            lemma_run_starts(ls, self.block_depth as int);
        }
        let mut r: Vec<(&'a str, bool)> = Vec::new();
        let mut i: usize = self.locals.len();
        while i > 0 && self.locals[i - 1].1 == self.block_depth
            invariant
                ls == self.locals@,
                start == same_depth_start(ls, self.block_depth as int),
                start <= i <= ls.len(),
                forall|k: int| start <= k < ls.len() ==> ls[k].1 == self.block_depth,
                r@ == ls.subrange(i as int, ls.len() as int).reverse().map_values(
                    |l: (&'a str, usize, bool)| (l.0, l.2),
                ),
                start == 0 || ls[start - 1].1 != self.block_depth,
            decreases i,
        {
            let (name, _, captured) = self.locals[i - 1];
            r.push((name, captured));
            i = i - 1;
            assert(r@ =~= ls.subrange(i as int, ls.len() as int).reverse().map_values(
                |l: (&'a str, usize, bool)| (l.0, l.2),
            ));
        }
        r
    }

    /// Whether `name` is already an argument, or a local of the innermost block.
    pub fn is_already_declared(&self, name: &'a str) -> (r: bool)
        ensures
            r == already_declared(*self, name@),
    {
        let mut i: usize = 0;
        while i < self.args.len()
            invariant
                0 <= i <= self.args@.len(),
                forall|k: int| 0 <= k < i ==> self.args@[k].0@ != name@,
            decreases self.args@.len() - i,
        {
            let (arg_name, _) = self.args[i];
            if str_eq(arg_name, name) {
                assert(arg_names(self.args@)[i as int] == name@);
                return true;
            }
            i = i + 1;
        }
        let ghost ls = self.locals@;
        let ghost start = block_start(ls, self.block_depth as int);
        proof {
            lemma_run_starts(ls, self.block_depth as int);
        }
        let mut j: usize = self.locals.len();
        while j > 0
            invariant
                ls == self.locals@,
                start == block_start(ls, self.block_depth as int),
                j <= ls.len(),
                forall|k: int| j <= k < ls.len() ==> ls[k].0@ != name@,
                forall|k: int| j <= k < ls.len() ==> ls[k].1 >= self.block_depth,
                forall|k: int| 0 <= k < self.args@.len() ==> self.args@[k].0@ != name@,
                start == 0 || ls[start - 1].1 < self.block_depth,
                0 <= start <= ls.len(),
                forall|k: int| start <= k < ls.len() ==> ls[k].1 >= self.block_depth,
            decreases j,
        {
            let (n, d, _) = self.locals[j - 1];
            if d < self.block_depth {
                proof {
                    if start < j as int {
                        assert(ls[j - 1].1 >= self.block_depth);
                    }
                    if start > j as int {
                        assert(ls[start - 1].1 >= self.block_depth);
                    }
                }
                assert(start == j);
                return false;
            }
            if str_eq(n, name) {
                proof {
                    if start >= j as int {
                        assert(ls[start - 1].1 >= self.block_depth);
                    }
                }
                assert(start <= j - 1);
                assert(self.locals@[j - 1].0@ == name@);
                return true;
            }
            j = j - 1;
        }
        assert(start == 0);
        false
    }

    /// The first argument named `name`, else the most recent local of that name.
    fn find_slot(&self, name: &str) -> (r: (Option<usize>, Option<usize>))
        ensures
            r.0 matches Some(i) ==> first_index_of(arg_names(self.args@), name@) == Some(i as int),
            r.0 is None ==> first_index_of(arg_names(self.args@), name@) is None,
            r.0 is None ==> (r.1 matches Some(j) ==> last_index_of(local_names(self.locals@), name@)
                == Some(j as int)),
            r.0 is None ==> (r.1 is None ==> last_index_of(local_names(self.locals@), name@) is None),
    {
        let ghost an = arg_names(self.args@);
        let ghost ln = local_names(self.locals@);
        let mut i: usize = 0;
        while i < self.args.len()
            invariant
                0 <= i <= self.args@.len(),
                an == arg_names(self.args@),
                first_index_of(an.take(i as int), name@) is None,
            decreases self.args@.len() - i,
        {
            let (n, _) = self.args[i];
            assert(an.take(i + 1).drop_last() == an.take(i as int));
            if str_eq(n, name) {
                assert(an.take(i + 1).last() == name@);
                proof {
                    lemma_first_index_prefix(an, name@, i + 1);
                }
                return (Some(i), None);
            }
            i = i + 1;
        }
        assert(an.take(an.len() as int) == an);
        assert(ln.take(ln.len() as int) == ln);
        let mut j: usize = self.locals.len();
        while j > 0
            invariant
                first_index_of(an, name@) is None,
                an == arg_names(self.args@),
                j <= self.locals@.len(),
                ln == local_names(self.locals@),
                last_index_of(ln, name@) == last_index_of(ln.take(j as int), name@),
            decreases j,
        {
            let (n, _, _) = self.locals[j - 1];
            assert(ln.take(j as int).drop_last() == ln.take(j - 1));
            if str_eq(n, name) {
                assert(ln.take(j as int).last() == name@);
                return (None, Some(j - 1));
            }
            j = j - 1;
        }
        (None, None)
    }

    /// Marks the variable that `name` resolves to as captured and returns its slot.
    fn capture_local(&mut self, name: &str) -> (r: Option<usize>)
        requires
            old(self).args@.len() + old(self).locals@.len() < usize::MAX,
        ensures
            r matches Some(k) ==> spec_resolve_local(*old(self), name@) == Some(k as int),
            r is None ==> spec_resolve_local(*old(self), name@) is None,
            spec_capture(*old(self), *final(self), name@),
    {
        let (a, l) = self.find_slot(name);
        match a {
            Some(i) => {
                proof {
                    lemma_first_index_of(arg_names(self.args@), name@);
                }
                let (n, _) = self.args[i];
                self.args.set(i, (n, true));
                Some(i)
            },
            None => match l {
                Some(j) => {
                    proof {
                        lemma_last_index_of(local_names(self.locals@), name@);
                    }
                    let (n, d, _) = self.locals[j];
                    self.locals.set(j, (n, d, true));
                    Some(self.args.len() + j)
                },
                None => None,
            },
        }
    }

    /// The slot of `name` in this function: the first argument of that name, else the most
    /// recent local of that name.
    pub fn resolve_local(&self, name: &str) -> (r: Option<usize>)
        requires
            self.args@.len() + self.locals@.len() < usize::MAX,
        ensures
            r matches Some(k) ==> spec_resolve_local(*self, name@) == Some(k as int),
            r is None ==> spec_resolve_local(*self, name@) is None,
    {
        let (a, l) = self.find_slot(name);
        match a {
            Some(i) => Some(i),
            None => match l {
                Some(j) => {
                    proof {
                        lemma_last_index_of(local_names(self.locals@), name@);
                    }
                    Some(self.args.len() + j)
                },
                None => None,
            },
        }
    }

    /// Resolves `name` as a variable captured from enclosing functions, recording the capture
    /// in this scope and in every scope between here and the declaring function.
    pub fn resolve_upvalue(&mut self, name: &'a str) -> (r: Option<(usize, UpvalueRef)>)
        requires
            slots_fit(*old(self)),
        ensures
            r matches Some((i, u)) ==> spec_resolve_upvalue(*old(self), name@) == Some((i as int, u)),
            r is None ==> spec_resolve_upvalue(*old(self), name@) is None,
            spec_resolve_step(*old(self), *final(self), name),
        decreases *old(self),
    {
        let ghost un = upvalue_names(self.upvalues@);
        let mut i: usize = 0;
        while i < self.upvalues.len()
            invariant
                0 <= i <= self.upvalues@.len(),
                un == upvalue_names(self.upvalues@),
                first_index_of(un.take(i as int), name@) is None,
            decreases self.upvalues@.len() - i,
        {
            let (n, value) = self.upvalues[i];
            assert(un.take(i + 1).drop_last() == un.take(i as int));
            if str_eq(n, name) {
                assert(un.take(i + 1).last() == name@);
                proof {
                    lemma_first_index_prefix(un, name@, i + 1);
                }
                return Some((i, value));
            }
            i = i + 1;
        }
        assert(un.take(un.len() as int) == un);
        let mut parent = self.parent.take();
        match parent {
            None => {
                self.parent = parent;
                None
            },
            Some(mut p) => {
                assert(*p == *old(self).parent->0);
                assert(slots_fit(*p));
                let captured = p.capture_local(name);
                match captured {
                    Some(local_idx) => {
                        let value = UpvalueRef::Local(local_idx);
                        self.upvalues.push((name, value));
                        self.parent = Some(p);
                        Some((self.upvalues.len() - 1, value))
                    },
                    None => {
                        proof {
                            assert(*p == *old(self).parent->0);
                        }
                        let deeper = (&mut *p).resolve_upvalue(name);
                        match deeper {
                            Some((k, _)) => {
                                let value = UpvalueRef::Upvalue(k);
                                self.upvalues.push((name, value));
                                self.parent = Some(p);
                                Some((self.upvalues.len() - 1, value))
                            },
                            None => {
                                self.parent = Some(p);
                                None
                            },
                        }
                    },
                }
            },
        }
    }
}

proof fn lemma_first_index_prefix(ns: Seq<Seq<char>>, x: Seq<char>, k: int)
    requires
        0 < k <= ns.len(),
        first_index_of(ns.take(k - 1), x) is None,
        ns[k - 1] == x,
    ensures
        first_index_of(ns, x) == Some(k - 1),
    decreases ns.len(),
{
    if ns.len() == k {
        assert(ns.drop_last() == ns.take(k - 1));
    } else {
        assert(ns.drop_last().take(k - 1) == ns.take(k - 1));
        lemma_first_index_prefix(ns.drop_last(), x, k);
    }
}

// ---------------------------------------------------------------------------
// Run-time bookkeeping
// ---------------------------------------------------------------------------

impl UpvalueRef {
    /// Appends the capture descriptor: a kind byte (1 for a local slot, 2 for a captured
    /// variable) and the 16-bit index, all at `line`.
    pub fn write_to(&self, code: &mut ByteCode, line: usize)
        ensures
            final(code).code@ == old(code).code@ + (match *self {
                UpvalueRef::Local(x) => seq![1u8] + u16_bytes(x as u16),
                UpvalueRef::Upvalue(x) => seq![2u8] + u16_bytes(x as u16),
            }),
            final(code).lines@ == old(code).lines@.push(line).push(line).push(line),
    {
        match self {
            UpvalueRef::Local(x) => {
                code.write_byte(1, line);
                code.write_u16(*x as u16, line);
            },
            UpvalueRef::Upvalue(x) => {
                code.write_byte(2, line);
                code.write_u16(*x as u16, line);
            },
        }
        proof {
            let c0 = old(code).code@;
            match *self {
                UpvalueRef::Local(x) => {
                    assert(c0.push(1u8) + u16_bytes(x as u16) =~= c0 + (seq![1u8] + u16_bytes(x as u16)));
                },
                UpvalueRef::Upvalue(x) => {
                    assert(c0.push(2u8) + u16_bytes(x as u16) =~= c0 + (seq![2u8] + u16_bytes(x as u16)));
                },
            }
        }
    }
}

/// An active call: the closure being run, its instruction pointer and the stack slot where
/// its locals begin.
#[derive(Clone, Copy, Debug)]
pub struct CallFrame {
    pub closure: GcRef,
    pub ip: usize,
    pub locals_idx: usize,
}

impl CallFrame {
    /// Moves the instruction pointer forward by `offset`.
    pub fn inc_ip(&mut self, offset: usize)
        requires
            old(self).ip + offset <= usize::MAX,
        ensures
            final(self).ip == old(self).ip + offset,
            final(self).closure == old(self).closure,
            final(self).locals_idx == old(self).locals_idx,
    {
        self.ip = self.ip + offset;
    }

    /// Moves the instruction pointer back by `offset`.
    pub fn dec_ip(&mut self, offset: usize)
        requires
            offset <= old(self).ip,
        ensures
            final(self).ip == old(self).ip - offset,
            final(self).closure == old(self).closure,
            final(self).locals_idx == old(self).locals_idx,
    {
        self.ip = self.ip - offset;
    }

    /// The instruction pointer.
    pub fn ip(&self) -> (r: usize)
        ensures
            r == self.ip,
    {
        self.ip
    }
}

/// The captured variables that still refer to a stack slot, by slot.
pub struct OpenUpValues {
    pub slots_to_values: BTreeMap<usize, GcRef>,
}

/// The entries of `m` at or above `slot`.
pub open spec fn entries_from(m: Map<usize, GcRef>, slot: usize) -> Set<(usize, GcRef)> {
    Set::new(|e: (usize, GcRef)| e.0 >= slot && m.contains_key(e.0) && m[e.0] == e.1)
}

/// The keys of `s` strictly increase.
pub open spec fn strictly_increasing_keys(s: Seq<(usize, GcRef)>) -> bool {
    forall|i: int, j: int| 0 <= i < j < s.len() ==> s[i].0 < s[j].0
}

impl OpenUpValues {
    /// No open captured variables.
    pub fn new() -> (r: Self)
        ensures
            r.slots_to_values@ == Map::<usize, GcRef>::empty(),
    {
        OpenUpValues { slots_to_values: BTreeMap::new() }
    }

    /// Removes and returns the captured variable of `stack_slot`.
    pub fn take(&mut self, stack_slot: usize) -> (r: Option<GcRef>)
        ensures
            final(self).slots_to_values@ == old(self).slots_to_values@.remove(stack_slot),
            r == (if old(self).slots_to_values@.contains_key(stack_slot) {
                Some(old(self).slots_to_values@[stack_slot])
            } else {
                None
            }),
    {
        self.slots_to_values.remove(&stack_slot)
    }

    /// The captured variable of `stack_slot`.
    pub fn get(&self, stack_slot: usize) -> (r: Option<GcRef>)
        ensures
            r == (if self.slots_to_values@.contains_key(stack_slot) {
                Some(self.slots_to_values@[stack_slot])
            } else {
                None
            }),
    {
        match self.slots_to_values.get(&stack_slot) {
            Some(r) => Some(*r),
            None => None,
        }
    }

    /// Records `upvalue` as the captured variable of `stack_slot`.
    pub fn insert(&mut self, stack_slot: usize, upvalue: GcRef)
        ensures
            final(self).slots_to_values@ == old(self).slots_to_values@.insert(stack_slot, upvalue),
    {
        self.slots_to_values.insert(stack_slot, upvalue);
    }

    /// Removes every captured variable at or above `slot` and returns them by increasing slot.
    pub fn close_from(&mut self, slot: usize) -> (r: Vec<(usize, GcRef)>)
        ensures
            r@.to_set() == entries_from(old(self).slots_to_values@, slot),
            strictly_increasing_keys(r@),
            final(self).slots_to_values@ == old(self).slots_to_values@.restrict(
                Set::new(|k: usize| k < slot),
            ),
    {
        let ghost m = self.slots_to_values@;
        let iter = self.slots_to_values.iter();
        let ghost items = iter.remaining();
        proof {
            broadcast use vstd::laws_cmp::group_laws_cmp;
            let ks = items.map_values(|kv: (&usize, &GcRef)| *kv.0);
            assert(vstd::laws_cmp::obeys_cmp::<usize>());
            assert(vstd::std_specs::btree::key_obeys_cmp_spec::<usize>());
            assert(vstd::std_specs::btree::increasing_seq(ks));
            assert forall|a: int, b: int| 0 <= a < b < items.len() implies *items[a].0
                < *items[b].0 by {
                assert(ks[a] == *items[a].0);
                assert(ks[b] == *items[b].0);
                assert(vstd::std_specs::cmp::OrdSpec::cmp_spec(&ks[a], &ks[b]) is Less);
            }
        }
        let ghost mut seen: int = 0;
        let mut keys: Vec<(usize, GcRef)> = Vec::new();
        for kv in it: iter
            invariant
                m == self.slots_to_values@,
                items == vstd::std_specs::btree::spec_btree_map_iter(&self.slots_to_values).remaining(),
                it.seq() == items,
                seen == it.index(),
                forall|a: int, b: int| 0 <= a < b < items.len() ==> *items[a].0 < *items[b].0,
                strictly_increasing_keys(keys@),
                forall|e: (usize, GcRef)| keys@.contains(e) ==> entries_from(m, slot).contains(e),
                forall|j: int|
                    0 <= j < seen && *items[j].0 >= slot ==> keys@.contains(
                        (*items[j].0, *items[j].1),
                    ),
                keys@.len() > 0 ==> (seen > 0 && keys@.last().0 <= *items[seen - 1].0),
        {
            assert(kv == items[seen]);
            proof {
                seen = seen + 1;
            }
            let (k, v) = kv;
            assert(m.contains_key(*k) && m[*k] == *v);
            if *k >= slot {
                let ghost before = keys@;
                keys.push((*k, *v));
                assert forall|e: (usize, GcRef)| keys@.contains(e) implies entries_from(
                    m,
                    slot,
                ).contains(e) by {
                    if e != (*k, *v) {
                        assert(before.contains(e));
                    }
                }
                assert forall|j: int|
                    0 <= j < seen && *items[j].0 >= slot implies keys@.contains(
                        (*items[j].0, *items[j].1),
                    ) by {
                    if j < seen - 1 {
                        let e = (*items[j].0, *items[j].1);
                        assert(before.contains(e));
                        let idx = choose|idx: int| 0 <= idx < before.len() && before[idx] == e;
                        assert(keys@[idx] == e);
                    } else {
                        assert(*items[j].0 == *k && *items[j].1 == *v);
                        assert(keys@[keys@.len() - 1] == (*k, *v));
                        assert(keys@.contains(keys@[keys@.len() - 1]));
                    }
                }
            }
        }
        let ghost taken = keys@;
        proof {
            assert forall|k: usize| m.contains_key(k) && k >= slot implies taken.contains(
                (k, m[k]),
            ) by {
                assert(items.contains((&k, &m[k])));
                let j = choose|j: int| 0 <= j < items.len() && items[j] == (&k, &m[k]);
                assert(*items[j].0 == k);
            }
        }
        let mut i: usize = 0;
        while i < keys.len()
            invariant
                0 <= i <= keys@.len(),
                keys@ == taken,
                forall|e: (usize, GcRef)| taken.contains(e) ==> entries_from(m, slot).contains(e),
                forall|k: usize| m.contains_key(k) && k >= slot ==> taken.contains((k, m[k])),
                forall|k: usize|
                    #[trigger] self.slots_to_values@.contains_key(k) <==> (m.contains_key(k)
                        && !(exists|j: int| 0 <= j < i && taken[j].0 == k)),
                forall|k: usize|
                    self.slots_to_values@.contains_key(k) ==> self.slots_to_values@[k] == m[k],
            decreases keys@.len() - i,
        {
            let (k, _) = keys[i];
            self.slots_to_values.remove(&k);
            i = i + 1;
            assert forall|q: usize|
                #[trigger] self.slots_to_values@.contains_key(q) <==> (m.contains_key(q)
                    && !(exists|j: int| 0 <= j < i && taken[j].0 == q)) by {
                if q == k {
                    assert(taken[i - 1].0 == q);
                }
            }
        }
        proof {
            let target = m.restrict(Set::new(|k: usize| k < slot));
            assert forall|q: usize| #[trigger] self.slots_to_values@.contains_key(q) <==> target.contains_key(q) by {
                if m.contains_key(q) && q >= slot {
                    let j = choose|j: int| 0 <= j < taken.len() && taken[j] == (q, m[q]);
                    assert(taken[j].0 == q);
                }
                if exists|j: int| 0 <= j < taken.len() && taken[j].0 == q {
                    let j = choose|j: int| 0 <= j < taken.len() && taken[j].0 == q;
                    assert(taken.contains(taken[j]));
                }
            }
            assert(self.slots_to_values@ =~= target);
            assert forall|e: (usize, GcRef)| entries_from(m, slot).contains(e) implies taken.to_set().contains(e) by {
                assert(taken.contains((e.0, m[e.0])));
            }
            assert(taken.to_set() =~= entries_from(m, slot));
        }
        keys
    }
}

// ---------------------------------------------------------------------------
// Laws of scopes
// ---------------------------------------------------------------------------

/// Leaving a function's scope gives back exactly the scope it was entered from.
pub proof fn lemma_leave_undoes_enter<'a>(
    o: LexicalScope<'a>,
    n: LexicalScope<'a>,
    slot0: &'a str,
    args: Seq<&'a str>,
    name: Seq<char>,
    ft: FunctionType,
    class: Option<ClassContext>,
)
    requires
        spec_entered(o, n, slot0, args, name, ft, class),
    ensures
        n.parent is Some,
        *n.parent->0 == o,
{
}

/// Closing a block drops exactly the locals declared in it: when every earlier local lies at
/// depth `d` or shallower and every later one deeper, closing back to depth `d` keeps the earlier.
pub proof fn lemma_leave_block_drops_block_locals<'a>(
    before: Seq<(&'a str, usize, bool)>,
    added: Seq<(&'a str, usize, bool)>,
    d: int,
)
    requires
        forall|k: int| 0 <= k < before.len() ==> before[k].1 <= d,
        forall|k: int| 0 <= k < added.len() ==> added[k].1 > d,
    ensures
        (before + added).take(deeper_start(before + added, d)) == before,
    decreases added.len(),
{
    if added.len() == 0 {
        assert(before + added == before);
        if before.len() > 0 {
            assert(before.last().1 <= d);
        }
        assert(deeper_start(before, d) == before.len());
        assert(before.take(before.len() as int) == before);
    } else {
        let shorter = added.drop_last();
        assert((before + added).drop_last() == before + shorter);
        assert((before + added).last() == added.last());
        assert(deeper_start(before + added, d) == deeper_start(before + shorter, d));
        lemma_leave_block_drops_block_locals(before, shorter, d);
        lemma_run_starts(before + shorter, d);
        let x = deeper_start(before + shorter, d);
        assert((before + added).take(x) =~= (before + shorter).take(x));
    }
}

/// A local just declared is found by its name, unless an argument bears that name.
pub proof fn lemma_new_local_resolves<'a>(
    o: LexicalScope<'a>,
    n: LexicalScope<'a>,
    name: &'a str,
    depth: usize,
)
    requires
        n.args == o.args,
        n.locals@ == o.locals@.push((name, depth, false)),
        first_index_of(arg_names(o.args@), name@) is None,
    ensures
        spec_resolve_local(n, name@) == Some((o.args@.len() + o.locals@.len()) as int),
{
    let ln = local_names(n.locals@);
    assert(ln.last() == name@);
}

proof fn lemma_first_index_of_push(ns: Seq<Seq<char>>, x: Seq<char>)
    requires
        first_index_of(ns, x) is None,
    ensures
        first_index_of(ns.push(x), x) == Some(ns.len() as int),
{
    assert(ns.push(x).drop_last() == ns);
}

proof fn lemma_upvalue_names_push<'a>(ups: Seq<(&'a str, UpvalueRef)>, name: &'a str, u: UpvalueRef)
    ensures
        upvalue_names(ups.push((name, u))) == upvalue_names(ups).push(name@),
{
    assert(upvalue_names(ups.push((name, u))) =~= upvalue_names(ups).push(name@));
}

/// Resolving a captured variable again gives the same answer, and changes nothing.
pub proof fn lemma_resolve_upvalue_stable<'a>(
    o: LexicalScope<'a>,
    n: LexicalScope<'a>,
    m: LexicalScope<'a>,
    name: &'a str,
)
    requires
        spec_resolve_step(o, n, name),
        spec_resolve_upvalue(o, name@) is Some,
        spec_resolve_step(n, m, name),
    ensures
        spec_resolve_upvalue(n, name@) == spec_resolve_upvalue(o, name@),
        m == n,
{
    match first_index_of(upvalue_names(o.upvalues@), name@) {
        Some(_) => {},
        None => {
            let op = *o.parent->0;
            let np = *n.parent->0;
            match spec_resolve_local(op, name@) {
                Some(idx) => {
                    lemma_upvalue_names_push(o.upvalues@, name, UpvalueRef::Local(idx as usize));
                    lemma_first_index_of_push(upvalue_names(o.upvalues@), name@);
                },
                None => {
                    let (i, _) = spec_resolve_upvalue(op, name@)->0;
                    lemma_upvalue_names_push(o.upvalues@, name, UpvalueRef::Upvalue(i as usize));
                    lemma_first_index_of_push(upvalue_names(o.upvalues@), name@);
                },
            }
        },
    }
}

// ---------------------------------------------------------------------------
// Errors
// ---------------------------------------------------------------------------

/// What went wrong while running a program.
#[derive(Debug)]
pub enum RuntimeErrorKind {
    UndefinedVariable { name: String },
    InvalidCallee,
    InvalidFunArity { got: usize, expected: usize },
    Unexpected { error: String },
    StackOverflow,
}

/// The message of each run-time error.
pub open spec fn runtime_error_message(k: RuntimeErrorKind) -> Seq<char> {
    match k {
        RuntimeErrorKind::UndefinedVariable { name } => "Undefined variable '"@ + name@ + "'."@,
        RuntimeErrorKind::InvalidCallee => "Can only call functions and classes."@,
        RuntimeErrorKind::InvalidFunArity { got, expected } => "Expected "@ + decimal_text(
            expected as nat,
        ) + " arguments but got "@ + decimal_text(got as nat) + "."@,
        RuntimeErrorKind::Unexpected { error } => "Unexpected runtime "@ + error@,
        RuntimeErrorKind::StackOverflow => "Stack overflow."@,
    }
}

impl RuntimeErrorKind {
    /// The message the error is reported with.
    pub fn message(&self) -> (r: String)
        ensures
            r@ == runtime_error_message(*self),
    {
        match self {
            RuntimeErrorKind::UndefinedVariable { name } => {
                let mut r = String::from_str("Undefined variable '");
                r.append(name.as_str());
                r.append("'.");
                r
            },
            RuntimeErrorKind::InvalidCallee => String::from_str(
                "Can only call functions and classes.",
            ),
            RuntimeErrorKind::InvalidFunArity { got, expected } => {
                let mut r = String::from_str("Expected ");
                r.append(decimal(*expected).as_str());
                r.append(" arguments but got ");
                r.append(decimal(*got).as_str());
                r.append(".");
                r
            },
            RuntimeErrorKind::Unexpected { error } => {
                let mut r = String::from_str("Unexpected runtime ");
                r.append(error.as_str());
                r
            },
            RuntimeErrorKind::StackOverflow => String::from_str("Stack overflow."),
        }
    }
}

/// The most call frames a program may have at once.
pub const FRAMES_MAX: usize = 256;

/// The message of an operand that is not a number: singular for negation, plural otherwise.
pub open spec fn operand_type_message(instruction: OpCodeTypes) -> Seq<char> {
    if instruction == OpCodeTypes::Negate {
        "Operand must be a number."@
    } else {
        "Operands must be numbers."@
    }
}

/// The message reported when `instruction` finds an operand that is not a number.
pub fn operand_type_error_message(instruction: OpCodeTypes) -> (r: &'static str)
    ensures
        r@ == operand_type_message(instruction),
{
    match instruction {
        OpCodeTypes::Negate => "Operand must be a number.",
        _ => "Operands must be numbers.",
    }
}

/// An error of the virtual machine: while compiling, while running, or in the bytecode.
#[derive(Debug)]
pub enum VirtualMachineError {
    CompileError(Vec<ParseError>),
    RuntimeError { kind: RuntimeErrorKind, stacktrace: String },
    OpCodeError(OpCodeError),
    MissingStackOperand,
    UnexpectedStackOperandType {
        instruction: OpCodeTypes,
        expected: ValueTypes,
        actual: ValueTypes,
    },
    Unhandled(String),
}

impl From<OpCodeError> for VirtualMachineError {
    fn from(e: OpCodeError) -> (r: VirtualMachineError) {
        VirtualMachineError::OpCodeError(e)
    }
}

impl vstd::std_specs::convert::FromSpecImpl<OpCodeError> for VirtualMachineError {
    open spec fn obeys_from_spec() -> bool {
        true
    }

    open spec fn from_spec(e: OpCodeError) -> VirtualMachineError {
        VirtualMachineError::OpCodeError(e)
    }
}

/// The message of a bytecode error.
pub open spec fn opcode_error_message(e: OpCodeError) -> Seq<char> {
    match e {
        OpCodeError::_InvalidOpCode { opcode } => "Received incorrect opcode "@ + decimal_text(
            opcode as nat,
        ) + " that doesn't match any known opcode"@,
    }
}

/// The message of each error that is not a compile error.
pub open spec fn vm_error_message(e: VirtualMachineError) -> Seq<char> {
    match e {
        VirtualMachineError::CompileError(_) => Seq::empty(),
        VirtualMachineError::RuntimeError { kind, stacktrace } => runtime_error_message(kind)
            + "\n"@ + stacktrace@,
        VirtualMachineError::OpCodeError(e) => "Opcode error: '"@ + opcode_error_message(e)
            + "'"@,
        VirtualMachineError::MissingStackOperand => "Expected operand on the stack but none found."@,
        VirtualMachineError::UnexpectedStackOperandType { instruction, .. } => operand_type_message(
            instruction,
        ),
        VirtualMachineError::Unhandled(msg) => "Unhandled error: "@ + msg@,
    }
}

/// Formats the list with `{:?}`, the debugging form that `derive(Debug)` gives the errors;
/// nothing is claimed of the text.
#[verifier::external_body]
fn debug_text_of_errors(errors: &Vec<ParseError>) -> (r: String) {
    format!("{:?}", errors)
}

impl VirtualMachineError {
    /// The message the error is reported with; compile errors are reported one by one, see
    /// `DisplayError`.
    pub fn message(&self) -> (r: String)
        ensures
            !(self is CompileError) ==> r@ == vm_error_message(*self),
    {
        match self {
            VirtualMachineError::CompileError(errors) => debug_text_of_errors(errors),
            VirtualMachineError::RuntimeError { kind, stacktrace } => {
                let mut r = kind.message();
                r.append("\n");
                r.append(stacktrace.as_str());
                r
            },
            VirtualMachineError::OpCodeError(OpCodeError::_InvalidOpCode { opcode }) => {
                let mut r = String::from_str("Opcode error: 'Received incorrect opcode ");
                r.append(decimal(*opcode as usize).as_str());
                r.append(" that doesn't match any known opcode'");
                proof {
                    reveal_strlit("Opcode error: 'Received incorrect opcode ");
                    reveal_strlit("Opcode error: '");
                    reveal_strlit("Received incorrect opcode ");
                    reveal_strlit(" that doesn't match any known opcode'");
                    reveal_strlit(" that doesn't match any known opcode");
                    reveal_strlit("'");
                    assert("Opcode error: 'Received incorrect opcode "@ =~= "Opcode error: '"@
                        + "Received incorrect opcode "@);
                    assert(" that doesn't match any known opcode'"@ =~= " that doesn't match any known opcode"@
                        + "'"@);
                }
                r
            },
            VirtualMachineError::MissingStackOperand => String::from_str(
                "Expected operand on the stack but none found.",
            ),
            VirtualMachineError::UnexpectedStackOperandType { instruction, .. } => String::from_str(
                operand_type_error_message(*instruction),
            ),
            VirtualMachineError::Unhandled(msg) => {
                let mut r = String::from_str("Unhandled error: ");
                r.append(msg.as_str());
                r
            },
        }
    }
}

// ---------------------------------------------------------------------------
// Reporting errors against the source
// ---------------------------------------------------------------------------

/// An error together with the source it was found in, for reporting.
pub struct DisplayError<'a> {
    pub err: &'a VirtualMachineError,
    pub code: &'a str,
    pub codemap: &'a Codemap,
}

/// The line `codemap` gives the position `p`.
pub open spec fn line_of(codemap: &Codemap, p: int) -> Option<int> {
    spec_lookup(
        codemap.table(),
        p + (if codemap.positions_from_1() { 2int } else { 1int }),
        if codemap.lines_from_1() { 1int } else { 0int },
    )
}

/// The text of `code` between the byte positions `start` and `end`.
pub open spec fn source_text(code: &str, start: usize, end: usize) -> Seq<char> {
    vstd::utf8::decode_utf8(code.spec_bytes().subrange(start as int, end as int))
}

/// The report of an error at `span`: the line when known, the text of the span, the message.
pub open spec fn span_report(code: &str, codemap: &Codemap, span: Span, msg: Seq<char>) -> Seq<char> {
    (match line_of(codemap, span.start as int) {
        Some(l) => "[line "@ + decimal_text(l as nat) + "] "@,
        None => Seq::empty(),
    }) + "Error at '"@ + source_text(code, span.start, span.end) + "': "@ + msg + "\n"@
}

/// The report of an error at the end of the source: the line of `last_position`, or line 1.
pub open spec fn end_report(codemap: &Codemap, last_position: usize, msg: Seq<char>) -> Seq<char> {
    "[line "@ + decimal_text(
        match line_of(codemap, last_position as int) {
            Some(l) => l as nat,
            None => 1nat,
        },
    ) + "] Error at end: "@ + msg
}

/// The span a parse error is reported at, for the errors that are reported at their span.
pub open spec fn reported_span(e: ParseError) -> Option<Span> {
    match e {
        ParseError::VariableAlreadyDeclared { span } => Some(span),
        ParseError::UnexpectedToken { span, .. } => Some(span),
        ParseError::InvalidVariableName { span } => Some(span),
        ParseError::InvalidAssignmentTarget { span } => Some(span),
        ParseError::InvalidTopLevelReturn { span } => Some(span),
        ParseError::ExpectedExpression { span } => Some(span),
        ParseError::MaxFunCallArguments { span } => Some(span),
        ParseError::MaxFunDeclarationParameters { span } => Some(span),
        ParseError::InitializerReturnValue { span } => Some(span),
        ParseError::SuperOutsideClass { span } => Some(span),
        ParseError::SuperWithoutSuperclass { span } => Some(span),
        _ => None,
    }
}

/// The report of one compile error.
pub open spec fn compile_error_report(code: &str, codemap: &Codemap, e: ParseError) -> Seq<char> {
    match reported_span(e) {
        Some(span) => span_report(code, codemap, span, parse_error_message(e)),
        None => match e {
            ParseError::UnexpectedEof { last_position } => end_report(
                codemap,
                last_position,
                "Expect expression."@,
            ),
            _ => parse_error_message(e) + "\n"@,
        },
    }
}

/// The reports of the first `n` compile errors, one after the other.
pub open spec fn compile_errors_report(code: &str, codemap: &Codemap, errors: Seq<ParseError>, n: int) -> Seq<char>
    decreases n,
{
    if n <= 0 || n > errors.len() {
        Seq::empty()
    } else {
        compile_errors_report(code, codemap, errors, n - 1) + compile_error_report(
            code,
            codemap,
            errors[n - 1],
        )
    }
}

/// A compile error can be reported against `code`: its span is a range of whole characters,
/// and its position is one that a line lookup can take.
pub open spec fn reportable(code: &str, e: ParseError) -> bool {
    &&& (reported_span(e) matches Some(span) ==> is_char_range(code, span.start, span.end)
        && span.start < usize::MAX - 1)
    &&& (e matches ParseError::UnexpectedEof { last_position } ==> last_position < usize::MAX - 1)
}

/// Whether `e` can be reported against `code`: its span, if it has one, lies on character
/// boundaries of `code`, and its positions leave room for the line lookup.
pub fn is_reportable(code: &str, e: &ParseError) -> (b: bool)
    ensures
        b == reportable(code, *e),
{
    let span = match e {
        ParseError::VariableAlreadyDeclared { span } => Some(*span),
        ParseError::UnexpectedToken { span, .. } => Some(*span),
        ParseError::InvalidVariableName { span } => Some(*span),
        ParseError::InvalidAssignmentTarget { span } => Some(*span),
        ParseError::InvalidTopLevelReturn { span } => Some(*span),
        ParseError::ExpectedExpression { span } => Some(*span),
        ParseError::MaxFunCallArguments { span } => Some(*span),
        ParseError::MaxFunDeclarationParameters { span } => Some(*span),
        ParseError::InitializerReturnValue { span } => Some(*span),
        ParseError::SuperOutsideClass { span } => Some(*span),
        ParseError::SuperWithoutSuperclass { span } => Some(*span),
        _ => None,
    };
    assert(span == reported_span(*e));
    let span_ok = match span {
        Some(s) => s.start <= s.end && s.end <= code.as_bytes().len() && code.is_char_boundary(s.start)
            && code.is_char_boundary(s.end) && s.start < usize::MAX - 1,
        None => true,
    };
    let end_ok = match e {
        ParseError::UnexpectedEof { last_position } => *last_position < usize::MAX - 1,
        _ => true,
    };
    span_ok && end_ok
}

/// Every error that parsing reports can be reported against the code it was found in, where
/// the code leaves room for the line lookup.
pub proof fn lemma_parse_errors_reportable(code: &str, e: ParseError)
    requires
        crate::parser::error_in(code, e),
        code.spec_bytes().len() < usize::MAX - 1,
    ensures
        reportable(code, e),
{
}

impl<'a> DisplayError<'a> {
    /// The report of an error at `span`.
    fn report_error_with_span(code: &str, codemap: &Codemap, span: &Span, error: &str) -> (r: String)
        requires
            is_char_range(code, span.start, span.end),
            span.start < usize::MAX - 1,
        ensures
            r@ == span_report(code, codemap, *span, error@),
    {
        let mut r = match codemap.line_at(span.start()) {
            Some(line) => {
                let mut p = String::from_str("[line ");
                p.append(decimal(line).as_str());
                p.append("] ");
                p
            },
            None => String::new(),
        };
        r.append("Error at '");
        let text = span.slice(code);
        proof {
            vstd::utf8::encode_utf8_decode_utf8(text@);
        }
        r.append(text);
        r.append("': ");
        r.append(error);
        r.append("\n");
        r
    }

    /// The report of an error at the end of the source.
    fn report_error_at_end(codemap: &Codemap, last_position: usize, error: &str) -> (r: String)
        requires
            last_position < usize::MAX - 1,
        ensures
            r@ == end_report(codemap, last_position, error@),
    {
        let line = match codemap.line_at(last_position) {
            Some(l) => l,
            None => 1,
        };
        let mut r = String::from_str("[line ");
        r.append(decimal(line).as_str());
        r.append("] Error at end: ");
        r.append(error);
        r
    }

    /// The report of the error: each compile error on its own against the source, any other
    /// error by its message.
    pub fn render(&self) -> (r: String)
        requires
            self.err matches VirtualMachineError::CompileError(errors) ==> forall|i: int|
                0 <= i < errors@.len() ==> reportable(self.code, #[trigger] errors@[i]),
        ensures
            (match *self.err {
                VirtualMachineError::CompileError(errors) => r@ == compile_errors_report(
                    self.code,
                    self.codemap,
                    errors@,
                    errors@.len() as int,
                ),
                _ => r@ == vm_error_message(*self.err) + "\n"@,
            }),
    {
        match self.err {
            VirtualMachineError::CompileError(errors) => {
                let mut r = String::new();
                let mut i: usize = 0;
                while i < errors.len()
                    invariant
                        0 <= i <= errors@.len(),
                        forall|k: int| 0 <= k < errors@.len() ==> reportable(self.code, #[trigger] errors@[k]),
                        r@ == compile_errors_report(self.code, self.codemap, errors@, i as int),
                    decreases errors.len() - i,
                {
                    let e = &errors[i];
                    assert(reportable(self.code, errors@[i as int]));
                    let part = match e {
                        ParseError::VariableAlreadyDeclared { span }
                        | ParseError::UnexpectedToken { span, .. }
                        | ParseError::InvalidVariableName { span }
                        | ParseError::InvalidAssignmentTarget { span }
                        | ParseError::InvalidTopLevelReturn { span }
                        | ParseError::ExpectedExpression { span }
                        | ParseError::MaxFunCallArguments { span }
                        | ParseError::MaxFunDeclarationParameters { span }
                        | ParseError::InitializerReturnValue { span }
                        | ParseError::SuperOutsideClass { span }
                        | ParseError::SuperWithoutSuperclass { span } => Self::report_error_with_span(
                            self.code,
                            self.codemap,
                            span,
                            e.message().as_str(),
                        ),
                        ParseError::UnexpectedEof { last_position } => Self::report_error_at_end(
                            self.codemap,
                            *last_position,
                            "Expect expression.",
                        ),
                        _ => {
                            let mut m = e.message();
                            m.append("\n");
                            m
                        },
                    };
                    r.append(part.as_str());
                    i = i + 1;
                }
                r
            },
            _ => {
                let mut r = self.err.message();
                r.append("\n");
                r
            },
        }
    }
}

// ---------------------------------------------------------------------------
// Global variables, kept in a hashbrown map
// ---------------------------------------------------------------------------

/// Global variables by interned name, in a `hashbrown::HashMap`.
#[verifier::external_body]
pub struct GlobalTable {
    map: HashMap<StrId, Value>,
}

/// The global variables held by a table.
pub uninterp spec fn global_entries(t: GlobalTable) -> Map<StrId, Value>;

impl GlobalTable {
    /// Calls `hashbrown::HashMap::new`, which makes an empty map.
    #[verifier::external_body]
    fn new() -> (t: GlobalTable)
        ensures
            global_entries(t) =~= Map::empty(),
    {
        GlobalTable { map: HashMap::new() }
    }

    /// Calls `hashbrown::HashMap::get`, the value stored under `name`.
    #[verifier::external_body]
    fn get(&self, name: StrId) -> (r: Option<Value>)
        ensures
            r == (if global_entries(*self).contains_key(name) {
                Some(global_entries(*self)[name])
            } else {
                None
            }),
    {
        self.map.get(&name).copied()
    }

    /// Calls `hashbrown::HashMap::insert`, which stores `value` under `name`, replacing any
    /// earlier value.
    #[verifier::external_body]
    fn insert(&mut self, name: StrId, value: Value)
        ensures
            global_entries(*final(self)) == global_entries(*old(self)).insert(name, value),
    {
        self.map.insert(name, value);
    }

    /// Calls `hashbrown::HashMap::values`, the stored values, in an order the map chooses.
    #[verifier::external_body]
    fn values(&self) -> (r: Vec<Value>)
        ensures
            forall|v: Value| #[trigger]
                r@.contains(v) <==> (exists|k: StrId|
                    global_entries(*self).contains_key(k) && global_entries(*self)[k] == v),
    {
        self.map.values().copied().collect()
    }
}

// ---------------------------------------------------------------------------
// The machine and its garbage collector
// ---------------------------------------------------------------------------

/// The object `r` refers to is an upvalue, unmarked, still open on stack slot `k`.
pub open spec fn open_upvalue_at(s: Seq<Option<Obj>>, r: GcRef, k: usize) -> bool {
    s[r.0 as int] == Some(
        Obj {
            is_marked: false,
            kind: ObjKind::Upvalue(ObjUpvalue { location: UpvalueLocation::Open(k) }),
        },
    ) && (r.0 as int) < s.len()
}

/// The object of an upvalue closed over `value`.
pub open spec fn closed_upvalue(value: Value) -> Obj {
    Obj {
        is_marked: false,
        kind: ObjKind::Upvalue(ObjUpvalue { location: UpvalueLocation::Closed(value) }),
    }
}

/// The arena after closing the captured variables of `open` at or above `from`: each such
/// upvalue object, open on slot `k`, is closed over `stack[k]`.
pub open spec fn closing(s: Seq<Option<Obj>>, open: Map<usize, GcRef>, from: usize, stack: Seq<Value>) -> Seq<Option<Obj>> {
    Seq::new(
        s.len(),
        |i: int|
            match s[i] {
                Some(o) => match o.kind {
                    ObjKind::Upvalue(u) => match u.location {
                        UpvalueLocation::Open(k) => if k >= from && open.contains_key(k) && open[k].0
                            == i {
                            Some(closed_upvalue(stack[k as int]))
                        } else {
                            s[i]
                        },
                        _ => s[i],
                    },
                    _ => s[i],
                },
                None => s[i],
            },
    )
}

/// Whether a value counts as true: everything but `false` and `nil`.
pub open spec fn truthy(v: Value) -> bool {
    match v {
        Value::Bool(b) => b,
        Value::Nil => false,
        _ => true,
    }
}

/// The slot holds a string object with text `text`.
pub open spec fn holds_string(slot: Option<Obj>, text: Seq<char>) -> bool {
    match slot {
        Some(o) => match o.kind {
            ObjKind::String(st) => st.value@ == text,
            _ => false,
        },
        None => false,
    }
}

/// The objects that the references among `vs` refer to.
pub open spec fn value_refs(vs: Seq<Value>) -> Set<GcRef> {
    Set::new(|r: GcRef| vs.contains(Value::Object(r)))
}

/// The slots of the references in `refs`.
pub open spec fn ref_slots(refs: Set<GcRef>) -> Set<int> {
    Set::new(|i: int| 0 <= i <= u32::MAX && refs.contains(GcRef(i as u32)))
}

/// `s` with `x` pushed holds what `s` holds and `x`.
proof fn lemma_push_contains<A>(s: Seq<A>, x: A, y: A)
    ensures
        s.push(x).contains(y) <==> (s.contains(y) || y == x),
{
    if s.contains(y) {
        let w = choose|w: int| 0 <= w < s.len() && s[w] == y;
        assert(s.push(x)[w] == y);
    }
    if y == x {
        assert(s.push(x)[s.len() as int] == y);
    }
    if s.push(x).contains(y) {
        let w = choose|w: int| 0 <= w < s.push(x).len() && s.push(x)[w] == y;
        if w < s.len() {
            assert(s[w] == y);
        }
    }
}

/// The references among `vs`, in order.
fn value_objects(vs: &Vec<Value>) -> (r: Vec<GcRef>)
    ensures
        forall|g: GcRef| #[trigger] r@.contains(g) <==> vs@.contains(Value::Object(g)),
{
    let mut r: Vec<GcRef> = Vec::new();
    let mut k: usize = 0;
    while k < vs.len()
        invariant
            0 <= k <= vs@.len(),
            forall|g: GcRef| #[trigger]
                r@.contains(g) <==> vs@.take(k as int).contains(Value::Object(g)),
        decreases vs@.len() - k,
    {
        let ghost before = r@;
        proof {
            assert(vs@.take(k + 1) == vs@.take(k as int).push(vs@[k as int]));
        }
        match vs[k] {
            Value::Object(g) => {
                r.push(g);
                proof {
                    assert forall|h: GcRef| #[trigger]
                        r@.contains(h) <==> vs@.take(k + 1).contains(Value::Object(h)) by {
                        lemma_push_contains(before, g, h);
                        lemma_push_contains(vs@.take(k as int), vs@[k as int], Value::Object(h));
                    }
                }
            },
            _ => {
                proof {
                    assert forall|h: GcRef| #[trigger]
                        r@.contains(h) <==> vs@.take(k + 1).contains(Value::Object(h)) by {
                        lemma_push_contains(vs@.take(k as int), vs@[k as int], Value::Object(h));
                    }
                }
            },
        }
        k = k + 1;
    }
    proof {
        assert(vs@.take(vs@.len() as int) == vs@);
    }
    r
}

/// The closures of the call frames, in order.
fn frame_closures(frames: &Vec<CallFrame>) -> (r: Vec<GcRef>)
    ensures
        forall|g: GcRef| #[trigger]
            r@.contains(g) <==> exists|k: int| 0 <= k < frames@.len() && frames@[k].closure == g,
{
    let mut r: Vec<GcRef> = Vec::new();
    let mut k: usize = 0;
    while k < frames.len()
        invariant
            0 <= k <= frames@.len(),
            r@.len() == k,
            forall|q: int| 0 <= q < k ==> r@[q] == frames@[q].closure,
        decreases frames@.len() - k,
    {
        r.push(frames[k].closure);
        k = k + 1;
    }
    proof {
        assert forall|g: GcRef| #[trigger]
            r@.contains(g) <==> exists|k: int| 0 <= k < frames@.len() && frames@[k].closure == g by {
            if r@.contains(g) {
                let q = choose|q: int| 0 <= q < r@.len() && r@[q] == g;
                assert(frames@[q].closure == g);
            }
            if exists|k: int| 0 <= k < frames@.len() && frames@[k].closure == g {
                let q = choose|q: int| 0 <= q < frames@.len() && frames@[q].closure == g;
                assert(r@[q] == g);
            }
        }
    }
    r
}

impl OpenUpValues {
    /// The captured variables, by increasing slot.
    pub fn refs(&self) -> (r: Vec<GcRef>)
        ensures
            forall|g: GcRef| #[trigger] r@.contains(g) <==> self.slots_to_values@.values().contains(g),
    {
        let ghost m = self.slots_to_values@;
        let iter = self.slots_to_values.iter();
        let ghost items = iter.remaining();
        let ghost mut seen: int = 0;
        let mut r: Vec<GcRef> = Vec::new();
        for kv in it: iter
            invariant
                m == self.slots_to_values@,
                items == vstd::std_specs::btree::spec_btree_map_iter(&self.slots_to_values).remaining(),
                it.seq() == items,
                seen == it.index(),
                r@.len() == seen,
                forall|q: int| 0 <= q < seen ==> r@[q] == *items[q].1,
        {
            assert(kv == items[seen]);
            proof {
                seen = seen + 1;
            }
            let (_, v) = kv;
            r.push(*v);
        }
        proof {
            assert forall|g: GcRef| #[trigger] r@.contains(g) <==> m.values().contains(g) by {
                if r@.contains(g) {
                    let q = choose|q: int| 0 <= q < r@.len() && r@[q] == g;
                    assert(m.contains_key(*items[q].0) && m[*items[q].0] == *items[q].1);
                }
                if m.values().contains(g) {
                    let k = choose|k: usize| m.contains_key(k) && m[k] == g;
                    assert(items.contains((&k, &m[k])));
                    let q = choose|q: int| 0 <= q < items.len() && items[q] == (&k, &m[k]);
                    assert(r@[q] == g);
                }
            }
        }
        r
    }

    /// Whether every captured variable at or above stack slot `from` lies below `limit`.
    pub fn all_below(&self, from: usize, limit: usize) -> (b: bool)
        ensures
            b == (forall|k: usize| self.slots_to_values@.contains_key(k) && k >= from ==> k < limit),
    {
        let ghost m = self.slots_to_values@;
        let iter = self.slots_to_values.iter();
        let ghost items = iter.remaining();
        let ghost mut seen: int = 0;
        let mut all = true;
        for kv in it: iter
            invariant
                m == self.slots_to_values@,
                items == vstd::std_specs::btree::spec_btree_map_iter(&self.slots_to_values).remaining(),
                it.seq() == items,
                seen == it.index(),
                all == (forall|q: int| 0 <= q < seen && *items[q].0 >= from ==> *items[q].0 < limit),
        {
            assert(kv == items[seen]);
            proof {
                seen = seen + 1;
            }
            let (k, _) = kv;
            if *k >= from && *k >= limit {
                all = false;
            }
        }
        proof {
            if all {
                assert forall|k: usize| m.contains_key(k) && k >= from implies k < limit by {
                    assert(items.contains((&k, &m[k])));
                    let q = choose|q: int| 0 <= q < items.len() && items[q] == (&k, &m[k]);
                    assert(*items[q].0 < limit);
                }
            } else {
                let q = choose|q: int| 0 <= q < seen && *items[q].0 >= from && !(*items[q].0 < limit);
                assert(m.contains_key(*items[q].0));
            }
        }
        all
    }
}

/// The virtual machine: its call frames, value stack, constants, globals, heap and the tables
/// that intern names and strings.
pub struct VirtualMachine {
    pub frame_idx: usize,
    pub frames: Vec<CallFrame>,
    pub interner: Interner,
    pub string_table: StringTable,
    pub stack: Vec<Value>,
    pub constants: Vec<Value>,
    pub globals: GlobalTable,
    pub codemap: Codemap,
    pub open_upvalues: OpenUpValues,
    pub heap: Heap,
    pub script_closure: Option<GcRef>,
}

impl VirtualMachine {
    /// The objects the machine refers to directly: from the stack, the global variables, the
    /// constants, the call frames and the open captured variables.
    pub open spec fn root_refs(&self) -> Set<GcRef> {
        value_refs(self.stack@) + value_refs(self.constants@) + Set::new(
            |r: GcRef|
                exists|g: StrId| #[trigger]
                    global_entries(self.globals).contains_key(g) && global_entries(self.globals)[g]
                        == Value::Object(r),
        ) + Set::new(
            |r: GcRef| exists|k: int| 0 <= k < self.frames@.len() && #[trigger] self.frames@[k].closure == r,
        ) + self.open_upvalues.slots_to_values@.values()
    }

    /// The heap slots the machine refers to directly.
    pub open spec fn roots(&self) -> Set<int> {
        ref_slots(self.root_refs())
    }

    /// The heap is well formed and unmarked between collections, the interner is well formed,
    /// and every interned string object is live.
    pub open spec fn wf(&self) -> bool {
        &&& self.heap.wf()
        &&& self.heap.sizes_fit()
        &&& forall|i: int| !marked(self.heap.slots(), i)
        &&& self.interner.wf()
        &&& forall|h: u64| #[trigger]
            self.string_table.entries().contains_key(h) ==> self.heap.spec_is_valid(
                self.string_table.entries()[h],
            )
        &&& self.open_upvalues_wf()
    }

    /// Each open captured variable of a stack slot is a live upvalue object open on that slot.
    pub open spec fn open_upvalues_wf(&self) -> bool {
        forall|k: usize| #[trigger]
            self.open_upvalues.slots_to_values@.contains_key(k) ==> open_upvalue_at(
                self.heap.slots(),
                self.open_upvalues.slots_to_values@[k],
                k,
            )
    }

    /// An object of `size` bytes can be allocated, and a collection can double the count of
    /// allocated bytes, without overflow or running out of references.
    pub open spec fn can_allocate(&self, size: int) -> bool {
        &&& size <= usize::MAX
        &&& self.heap.bytes_allocated + size <= usize::MAX
        &&& self.heap.bytes_allocated * 2 <= usize::MAX
        &&& (self.heap.free_slots().len() > 0 || self.heap.slots().len() <= u32::MAX)
    }

    /// Everything but the heap and the string table is as in `other`.
    pub open spec fn same_except_heap(&self, other: &Self) -> bool {
        &&& self.same_except_heap_and_upvalues(other)
        &&& self.open_upvalues.slots_to_values@ == other.open_upvalues.slots_to_values@
    }

    /// Everything but the heap, the string table and the open captured variables is as in
    /// `other`.
    pub open spec fn same_except_heap_and_upvalues(&self, other: &Self) -> bool {
        &&& self.frame_idx == other.frame_idx
        &&& self.frames@ == other.frames@
        &&& self.interner == other.interner
        &&& self.stack@ == other.stack@
        &&& self.constants@ == other.constants@
        &&& global_entries(self.globals) == global_entries(other.globals)
        &&& self.codemap == other.codemap
        &&& self.script_closure == other.script_closure
    }

    /// The machine is `before` after a collection: the objects reachable from the roots stay,
    /// unmarked, the others are freed, the string table forgets the freed strings, and the
    /// next threshold is set from the bytes still allocated.
    pub open spec fn collection_of(&self, before: &Self) -> bool {
        let marks = with_reachable_marks(before.heap.slots(), before.roots());
        let n = before.heap.slots().len() as int;
        &&& self.heap.slots() == swept_slots(marks)
        &&& self.heap.free_slots() == before.heap.free_slots() + freed_slots(marks, n)
        &&& self.heap.bytes_allocated == bytes_after_sweep(marks, n, before.heap.bytes_allocated as int)
        &&& self.heap.next_gc == next_threshold(self.heap.bytes_allocated as int)
        &&& self.heap.gray().len() == 0
        &&& self.string_table.entries() == before.table_after_collection()
        &&& self.same_except_heap(before)
    }

    /// The interned strings that a collection keeps: those the roots reach.
    pub open spec fn table_after_collection(&self) -> Map<u64, GcRef> {
        self.string_table.entries().restrict(
            Set::new(
                |h: u64|
                    reachable(
                        self.heap.slots(),
                        self.roots(),
                        self.string_table.entries()[h].0 as int,
                    ),
            ),
        )
    }

    /// An allocation collects garbage first: the allocated bytes exceed the threshold.
    pub open spec fn collects(&self) -> bool {
        self.heap.bytes_allocated > self.heap.next_gc
    }

    /// The heap slots an allocation starts from: those after a collection, if one comes first.
    pub open spec fn slots_before_alloc(&self) -> Seq<Option<Obj>> {
        if self.collects() {
            swept_slots(with_reachable_marks(self.heap.slots(), self.roots()))
        } else {
            self.heap.slots()
        }
    }

    /// The string table an allocation starts from: the one after a collection, if one comes
    /// first.
    pub open spec fn table_before_alloc(&self) -> Map<u64, GcRef> {
        if self.collects() {
            self.table_after_collection()
        } else {
            self.string_table.entries()
        }
    }

    /// The machine is `before` after `obj` was stored at `r`: a slot that was free, or a new
    /// one at the end, once any collection that comes first is done.
    pub open spec fn allocation_of(&self, before: &Self, r: GcRef, obj: Obj) -> bool {
        &&& self.stored_at(before, r, obj)
        &&& self.same_except_heap(before)
    }

    /// The heap is that of `before` with `obj` stored at `r`, a slot that was free or a new one
    /// at the end, once any collection that comes first is done.
    pub open spec fn stored_at(&self, before: &Self, r: GcRef, obj: Obj) -> bool {
        let m = before.slots_before_alloc();
        &&& (r.0 as int) <= m.len()
        &&& ((r.0 as int) < m.len() ==> m[r.0 as int] is None)
        &&& self.heap.slots() == (if (r.0 as int) < m.len() {
            m.update(r.0 as int, Some(obj))
        } else {
            m.push(Some(obj))
        })
    }

    /// A machine with nothing compiled or allocated.
    pub fn new() -> (r: Self)
        ensures
            r.wf(),
            r.heap.slots() == Seq::<Option<Obj>>::empty(),
            r.heap.bytes_allocated == 0,
            r.heap.next_gc == 1024 * 1024,
            r.stack@ == Seq::<Value>::empty(),
            r.constants@ == Seq::<Value>::empty(),
            r.frames@ == Seq::<CallFrame>::empty(),
            r.frame_idx == 0,
            global_entries(r.globals) == Map::<StrId, Value>::empty(),
            r.string_table.entries() == Map::<u64, GcRef>::empty(),
            r.interner.strings() == Seq::<Seq<char>>::empty(),
            r.open_upvalues.slots_to_values@ == Map::<usize, GcRef>::empty(),
            r.script_closure is None,
    {
        VirtualMachine {
            constants: Vec::new(),
            stack: Vec::new(),
            interner: Interner::new(default_hasher()),
            string_table: StringTable::new(default_hasher()),
            globals: GlobalTable::new(),
            frame_idx: 0,
            frames: Vec::new(),
            codemap: Codemap::new(""),
            open_upvalues: OpenUpValues::new(),
            heap: Heap::new(),
            script_closure: None,
        }
    }

    /// Marks every live object the machine refers to directly and puts it on the gray stack.
    fn mark_roots(&mut self)
        requires
            old(self).heap.wf(),
            forall|i: int| !marked(old(self).heap.slots(), i),
            old(self).heap.gray().len() == 0,
        ensures
            final(self).heap.wf(),
            only_marks_added(old(self).heap.slots(), final(self).heap.slots()),
            forall|i: int| #[trigger] marked(final(self).heap.slots(), i) <==> (live(old(self).heap.slots(), i)
                && old(self).roots().contains(i)),
            forall|i: int| marked(final(self).heap.slots(), i) ==> final(self).heap.gray().contains(i as u32),
            forall|k: int| 0 <= k < final(self).heap.gray().len() ==> marked(final(self).heap.slots(), final(self).heap.gray()[k] as int),
            final(self).heap.free_slots() == old(self).heap.free_slots(),
            final(self).heap.bytes_allocated == old(self).heap.bytes_allocated,
            final(self).heap.next_gc == old(self).heap.next_gc,
            final(self).string_table == old(self).string_table,
            final(self).same_except_heap(old(self)),
    {
        let ghost s0 = self.heap.slots();
        let stack_refs = value_objects(&self.stack);
        let globals = self.globals.values();
        let global_refs = value_objects(&globals);
        let constant_refs = value_objects(&self.constants);
        let frame_refs = frame_closures(&self.frames);
        let open_refs = self.open_upvalues.refs();
        let ghost g0 = self.heap.gray();
        self.heap.mark_all(&stack_refs);
        let ghost s1 = self.heap.slots();
        let ghost g1 = self.heap.gray();
        self.heap.mark_all(&global_refs);
        let ghost s2 = self.heap.slots();
        let ghost g2 = self.heap.gray();
        self.heap.mark_all(&constant_refs);
        let ghost s3 = self.heap.slots();
        let ghost g3 = self.heap.gray();
        self.heap.mark_all(&frame_refs);
        let ghost s4 = self.heap.slots();
        let ghost g4 = self.heap.gray();
        self.heap.mark_all(&open_refs);
        proof {
            let s5 = self.heap.slots();
            let g5 = self.heap.gray();
            crate::gc::lemma_only_marks_added_trans(s0, s1, s2);
            crate::gc::lemma_only_marks_added_trans(s0, s2, s3);
            crate::gc::lemma_only_marks_added_trans(s0, s3, s4);
            crate::gc::lemma_only_marks_added_trans(s0, s4, s5);
            assert forall|i: int| #[trigger] marked(s5, i) <==> (live(s0, i) && old(self).roots().contains(i)) by {
                assert(live(s1, i) == live(s0, i));
                assert(live(s2, i) == live(s0, i));
                assert(live(s3, i) == live(s0, i));
                assert(live(s4, i) == live(s0, i));
                if 0 <= i <= u32::MAX {
                    let g = GcRef(i as u32);
                    assert(g.0 as int == i);
                    assert(stack_refs@.contains(g) == value_refs(old(self).stack@).contains(g));
                    assert(constant_refs@.contains(g) == value_refs(old(self).constants@).contains(g));
                    assert(open_refs@.contains(g) == old(self).open_upvalues.slots_to_values@.values().contains(g));
                    assert(frame_refs@.contains(g) == (exists|k: int| 0 <= k < old(self).frames@.len() && #[trigger] old(self).frames@[k].closure == g));
                    assert(global_refs@.contains(g) == (exists|h: StrId| #[trigger]
                        global_entries(old(self).globals).contains_key(h) && global_entries(old(self).globals)[h]
                            == Value::Object(g))) by {
                        if global_refs@.contains(g) {
                            assert(globals@.contains(Value::Object(g)));
                        }
                        if exists|h: StrId| #[trigger]
                            global_entries(old(self).globals).contains_key(h) && global_entries(old(self).globals)[h]
                                == Value::Object(g) {
                            assert(globals@.contains(Value::Object(g)));
                        }
                    }
                }
            }
            crate::gc::lemma_gray_step(s0, s1, g0, g1);
            crate::gc::lemma_gray_step(s1, s2, g1, g2);
            crate::gc::lemma_gray_step(s2, s3, g2, g3);
            crate::gc::lemma_gray_step(s3, s4, g3, g4);
            crate::gc::lemma_gray_step(s4, s5, g4, g5);
        }
    }

    /// Collects garbage: marks what the roots reach, forgets the interned strings that are
    /// not reached, frees the objects that are not reached and sets the next threshold.
    pub fn collect_garbage(&mut self)
        requires
            old(self).wf(),
            old(self).heap.bytes_allocated * 2 <= usize::MAX,
        ensures
            final(self).wf(),
            final(self).collection_of(old(self)),
    {
        self.heap.reset_gray_stack();
        let ghost s0 = self.heap.slots();
        let ghost roots = self.roots();
        self.mark_roots();
        let ghost s1 = self.heap.slots();
        proof {
            assert(tricolor(s1, self.heap.gray()));
        }
        self.heap.trace_references();
        let ghost s2 = self.heap.slots();
        proof {
            crate::gc::lemma_only_marks_added_trans(s0, s1, s2);
            assert(marked_set(s1).subset_of(roots));
            assert forall|i: int| 0 <= i < s2.len() implies s2[i] == with_reachable_marks(s0, roots)[i] by {
                let _ = s0[i];
                let _ = s1[i];
                let _ = s2[i];
                if live(s2, i) {
                    if marked(s2, i) {
                        let n = choose|n: nat| reachable_within(s1, marked_set(s1), n, i);
                        lemma_reachable_ignores_marks(s0, s1, marked_set(s1), n, i);
                        lemma_reachable_more_roots(s0, marked_set(s1), roots, n, i);
                    }
                    if reachable(s0, roots, i) {
                        let n = choose|n: nat| reachable_within(s0, roots, n, i);
                        lemma_reachable_ignores_marks(s0, s2, roots, n, i);
                        assert forall|r: int| #[trigger] roots.contains(r) && live(s2, r) implies marked(s2, r) by {
                            let _ = s0[r];
                            let _ = s1[r];
                            let _ = s2[r];
                            assert(marked(s1, r));
                        }
                        lemma_reachable_is_marked(s2, roots, n, i);
                    }
                }
            }
            assert(s2 =~= with_reachable_marks(s0, roots));
            crate::gc::lemma_sizes_fit_marks(s0, s2);
        }
        let heap = &self.heap;
        let is_marked = |r: GcRef| -> (b: bool)
            requires
                crate::gc::in_arena(heap.slots(), r),
            ensures
                crate::gc::tells_marked(heap.slots(), r, b),
            {
                let b = heap.is_marked(r);
                b
            };
        self.string_table.remove_unmarked(is_marked);
        proof {
            assert forall|h: u64| #[trigger]
                self.string_table.entries().contains_key(h) <==> (old(self).string_table.entries().contains_key(h)
                    && reachable(s0, roots, old(self).string_table.entries()[h].0 as int)) by {
                if old(self).string_table.entries().contains_key(h) {
                    let e = old(self).string_table.entries()[h];
                    assert(old(self).heap.spec_is_valid(e));
                    let _ = s2[e.0 as int];
                }
            }
            assert(self.string_table.entries() =~= old(self).table_after_collection());
        }
        self.heap.sweep();
        proof {
            crate::gc::lemma_bytes_after_sweep_le(s2, s2.len() as int, old(self).heap.bytes_allocated as int);
        }
        self.heap.update_threshold();
        proof {
            let s3 = self.heap.slots();
            assert forall|h: u64| #[trigger]
                self.string_table.entries().contains_key(h) implies self.heap.spec_is_valid(
                self.string_table.entries()[h]) by {
                let e = self.string_table.entries()[h];
                assert(old(self).heap.spec_is_valid(e));
                assert(marked(s2, e.0 as int));
                let _ = s3[e.0 as int];
            }
            assert forall|i: int| !marked(s3, i) by {
                if 0 <= i < s3.len() {
                    let _ = s2[i];
                }
            }
            assert forall|k: usize| #[trigger]
                self.open_upvalues.slots_to_values@.contains_key(k) implies open_upvalue_at(
                self.heap.slots(),
                self.open_upvalues.slots_to_values@[k],
                k,
            ) by {
                let r = self.open_upvalues.slots_to_values@[k];
                assert(old(self).open_upvalues.slots_to_values@.values().contains(r));
                assert(old(self).root_refs().contains(r));
                assert(GcRef(r.0 as int as u32) == r);
                assert(roots.contains(r.0 as int));
                assert(reachable_within(s0, roots, 0, r.0 as int));
                assert(reachable(s0, roots, r.0 as int));
                let _ = s2[r.0 as int];
            }
        }
    }

    /// Collects garbage when the allocated bytes exceed the threshold.
    fn maybe_collect(&mut self)
        requires
            old(self).wf(),
            old(self).heap.bytes_allocated * 2 <= usize::MAX,
        ensures
            final(self).wf(),
            if old(self).heap.bytes_allocated > old(self).heap.next_gc {
                final(self).collection_of(old(self))
            } else {
                *final(self) == *old(self)
            },
    {
        if self.heap.bytes_allocated > self.heap.next_gc {
            self.collect_garbage();
        }
    }

    /// Stores `obj` on the heap, collecting garbage first when the threshold is passed.
    fn store(&mut self, obj: Obj) -> (r: GcRef)
        requires
            old(self).wf(),
            old(self).can_allocate(spec_size(obj)),
            !obj.is_marked,
        ensures
            final(self).wf(),
            final(self).allocation_of(old(self), r, obj),
            final(self).string_table.entries() == old(self).table_before_alloc(),
    {
        self.maybe_collect();
        proof {
            if old(self).collects() {
                crate::gc::lemma_bytes_after_sweep_le(
                    with_reachable_marks(old(self).heap.slots(), old(self).roots()),
                    old(self).heap.slots().len() as int,
                    old(self).heap.bytes_allocated as int,
                );
            }
        }
        let ghost mid = self.heap.slots();
        let r = self.heap.allocate(obj);
        proof {
            assert forall|h: u64| #[trigger] self.string_table.entries().contains_key(h) implies self.heap.spec_is_valid(
                self.string_table.entries()[h]) by {
                let e = self.string_table.entries()[h];
                assert(live(mid, e.0 as int));
            }
            assert forall|i: int| !marked(self.heap.slots(), i) by {
                if 0 <= i < mid.len() && i != r.0 {
                    assert(!marked(mid, i));
                }
            }
        }
        r
    }

    /// Allocates a function object.
    pub fn alloc_function(&mut self, name: GcRef, arity: usize, code: ByteCode, upvalue_count: usize) -> (r: GcRef)
        requires
            old(self).wf(),
            old(self).can_allocate((vstd::layout::size_of::<Obj>() + code.code@.len()) as int),
        ensures
            final(self).wf(),
            final(self).allocation_of(
                old(self),
                r,
                Obj {
                    is_marked: false,
                    kind: ObjKind::Function(ObjFunction { name, arity, code, upvalue_count }),
                },
            ),
            final(self).string_table.entries() == old(self).table_before_alloc(),
    {
        let obj = Obj::function(name, arity, code, upvalue_count);
        self.store(obj)
    }

    /// Allocates a closure of `function` over `upvalues`.
    pub fn alloc_closure(&mut self, function: GcRef, upvalues: Vec<GcRef>) -> (r: GcRef)
        requires
            old(self).wf(),
            old(self).can_allocate(
                (vstd::layout::size_of::<Obj>() + upvalues@.len() * vstd::layout::size_of::<GcRef>()) as int,
            ),
        ensures
            final(self).wf(),
            final(self).allocation_of(
                old(self),
                r,
                Obj { is_marked: false, kind: ObjKind::Closure(ObjClosure { function, upvalues }) },
            ),
            final(self).string_table.entries() == old(self).table_before_alloc(),
    {
        let obj = Obj::closure(function, upvalues);
        self.store(obj)
    }

    /// Allocates a captured variable at `location`.
    pub fn alloc_upvalue(&mut self, location: UpvalueLocation) -> (r: GcRef)
        requires
            old(self).wf(),
            old(self).can_allocate(vstd::layout::size_of::<Obj>() as int),
        ensures
            final(self).wf(),
            final(self).allocation_of(
                old(self),
                r,
                Obj { is_marked: false, kind: ObjKind::Upvalue(ObjUpvalue { location }) },
            ),
            final(self).string_table.entries() == old(self).table_before_alloc(),
    {
        let obj = Obj::upvalue(location);
        self.store(obj)
    }

    /// Allocates a class named by the string object `name`.
    pub fn alloc_class(&mut self, name: GcRef) -> (r: GcRef)
        requires
            old(self).wf(),
            old(self).can_allocate(vstd::layout::size_of::<Obj>() as int),
        ensures
            final(self).wf(),
            final(self).heap.slots()[r.0 as int] matches Some(o) && !o.is_marked && (o.kind matches ObjKind::Class(c)
                && c.name == name && field_entries(c.methods) == Map::<GcRef, Value>::empty()),
            exists|obj: Obj| #[trigger] final(self).allocation_of(old(self), r, obj),
            final(self).string_table.entries() == old(self).table_before_alloc(),
    {
        let obj = Obj::class(name);
        proof {
            let m = field_entries(obj.kind->Class_0.methods);
            assert(m.dom() =~= Set::<GcRef>::empty());
            assert(m.len() == 0);
        }
        self.store(obj)
    }

    /// Allocates the method `method` bound to `receiver`.
    pub fn alloc_bound_method(&mut self, receiver: Value, method: GcRef) -> (r: GcRef)
        requires
            old(self).wf(),
            old(self).can_allocate(vstd::layout::size_of::<Obj>() as int),
        ensures
            final(self).wf(),
            final(self).allocation_of(
                old(self),
                r,
                Obj { is_marked: false, kind: ObjKind::BoundMethod(ObjBoundMethod { receiver, method }) },
            ),
            final(self).string_table.entries() == old(self).table_before_alloc(),
    {
        let obj = Obj::bound_method(receiver, method);
        self.store(obj)
    }

    /// Allocates an instance of `klass` with no fields.
    pub fn alloc_instance(&mut self, klass: GcRef) -> (r: GcRef)
        requires
            old(self).wf(),
            old(self).can_allocate(vstd::layout::size_of::<Obj>() as int),
        ensures
            final(self).wf(),
            final(self).heap.slots()[r.0 as int] matches Some(o) && !o.is_marked && (o.kind matches ObjKind::Instance(inst)
                && inst.klass == klass && field_entries(inst.fields) == Map::<GcRef, Value>::empty()),
            exists|obj: Obj| #[trigger] final(self).allocation_of(old(self), r, obj),
            final(self).string_table.entries() == old(self).table_before_alloc(),
    {
        let obj = Obj::instance(klass);
        proof {
            let m = field_entries(obj.kind->Instance_0.fields);
            assert(m.dom() =~= Set::<GcRef>::empty());
            assert(m.len() == 0);
        }
        self.store(obj)
    }

    /// The interned string object that a string with text `text` would be given, if the string
    /// table (after any collection that comes first) holds one under the text's hash.
    pub open spec fn interned_string_for(&self, text: Seq<char>) -> Option<GcRef> {
        let t = self.table_before_alloc();
        let m = self.slots_before_alloc();
        let h = str_hash(text);
        if t.contains_key(h) && holds_string(m[t[h].0 as int], text) {
            Some(t[h])
        } else {
            None
        }
    }

    /// `self` is `before` once the string `s` is stored as `r`: the interned string object when
    /// the string table holds one with its text, else a new string object, interned under the
    /// text's hash; either way `r` holds the text.
    pub open spec fn string_stored(&self, before: &Self, s: String, r: GcRef) -> bool {
        &&& holds_string(self.heap.slots()[r.0 as int], s@)
        &&& match before.interned_string_for(s@) {
            Some(e) => {
                &&& r == e
                &&& self.heap.slots() == before.slots_before_alloc()
                &&& self.string_table.entries() == before.table_before_alloc()
                &&& self.same_except_heap(before)
            },
            None => {
                &&& self.allocation_of(
                    before,
                    r,
                    Obj {
                        is_marked: false,
                        kind: ObjKind::String(ObjString { value: s, hash: str_hash(s@) }),
                    },
                )
                &&& self.string_table.entries() == before.table_before_alloc().insert(str_hash(s@), r)
            },
        }
    }

    /// The string object for `s`: the interned one when the string table holds an equal string
    /// under its hash, else a new string object, which is then interned under that hash.
    pub fn alloc_string(&mut self, s: String) -> (r: GcRef)
        requires
            old(self).wf(),
            old(self).can_allocate(
                (vstd::layout::size_of::<Obj>() + vstd::utf8::encode_utf8(s@).len()) as int,
            ),
        ensures
            final(self).wf(),
            final(self).string_stored(old(self), s, r),
    {
        self.maybe_collect();
        proof {
            if old(self).collects() {
                crate::gc::lemma_bytes_after_sweep_le(
                    with_reachable_marks(old(self).heap.slots(), old(self).roots()),
                    old(self).heap.slots().len() as int,
                    old(self).heap.bytes_allocated as int,
                );
            }
        }
        let hash = self.string_table.hash_string(s.as_str());
        match self.string_table.get(hash) {
            Some(existing) => {
                let same = match &self.heap.get(existing).kind {
                    ObjKind::String(existing_str) => str_eq(existing_str.value.as_str(), s.as_str()),
                    _ => false,
                };
                if same {
                    return existing;
                }
            },
            None => {},
        }
        let ghost mid = self.heap.slots();
        let obj = Obj::string(s, hash);
        let r = self.heap.allocate(obj);
        self.string_table.insert(hash, r);
        proof {
            assert forall|h: u64| #[trigger] self.string_table.entries().contains_key(h) implies self.heap.spec_is_valid(
                self.string_table.entries()[h]) by {
                if h != hash {
                    let e = self.string_table.entries()[h];
                    assert(live(mid, e.0 as int));
                }
            }
            assert forall|i: int| !marked(self.heap.slots(), i) by {
                if 0 <= i < mid.len() && i != r.0 {
                    assert(!marked(mid, i));
                }
            }
        }
        r
    }

    /// The captured variable of `stack_slot`: the open one when there is one, else a new
    /// upvalue object open on that slot, which is recorded as open.
    pub fn capture_upvalue(&mut self, stack_slot: usize) -> (r: GcRef)
        requires
            old(self).wf(),
            old(self).can_allocate(vstd::layout::size_of::<Obj>() as int),
        ensures
            final(self).wf(),
            if old(self).open_upvalues.slots_to_values@.contains_key(stack_slot) {
                &&& r == old(self).open_upvalues.slots_to_values@[stack_slot]
                &&& *final(self) == *old(self)
            } else {
                &&& final(self).stored_at(
                    old(self),
                    r,
                    Obj {
                        is_marked: false,
                        kind: ObjKind::Upvalue(ObjUpvalue { location: UpvalueLocation::Open(stack_slot) }),
                    },
                )
                &&& final(self).string_table.entries() == old(self).table_before_alloc()
                &&& final(self).open_upvalues.slots_to_values@ == old(self).open_upvalues.slots_to_values@.insert(
                    stack_slot,
                    r,
                )
                &&& final(self).same_except_heap_and_upvalues(old(self))
            },
    {
        if let Some(existing) = self.open_upvalues.get(stack_slot) {
            return existing;
        }
        let upvalue_ref = self.alloc_upvalue(UpvalueLocation::Open(stack_slot));
        self.open_upvalues.insert(stack_slot, upvalue_ref);
        proof {
            assert forall|k: usize| #[trigger]
                self.open_upvalues.slots_to_values@.contains_key(k) implies open_upvalue_at(
                self.heap.slots(),
                self.open_upvalues.slots_to_values@[k],
                k,
            ) by {
                if k != stack_slot {
                    let g = self.open_upvalues.slots_to_values@[k];
                    assert(g != upvalue_ref);
                }
            }
        }
        upvalue_ref
    }

    /// Closes every captured variable at or above `from_slot` over the value in its stack
    /// slot, and forgets it as open.
    pub fn close_upvalues(&mut self, from_slot: usize)
        requires
            old(self).wf(),
            forall|k: usize| #[trigger]
                old(self).open_upvalues.slots_to_values@.contains_key(k) && k >= from_slot ==> k
                    < old(self).stack@.len(),
        ensures
            final(self).wf(),
            final(self).heap.slots() == closing(
                old(self).heap.slots(),
                old(self).open_upvalues.slots_to_values@,
                from_slot,
                old(self).stack@,
            ),
            final(self).open_upvalues.slots_to_values@ == old(self).open_upvalues.slots_to_values@.restrict(
                Set::new(|k: usize| k < from_slot),
            ),
            final(self).string_table == old(self).string_table,
            final(self).heap.free_slots() == old(self).heap.free_slots(),
            final(self).heap.gray() == old(self).heap.gray(),
            final(self).heap.bytes_allocated == old(self).heap.bytes_allocated,
            final(self).heap.next_gc == old(self).heap.next_gc,
            final(self).same_except_heap_and_upvalues(old(self)),
    {
        let ghost m = self.open_upvalues.slots_to_values@;
        let ghost s0 = self.heap.slots();
        let to_close = self.open_upvalues.close_from(from_slot);
        let ghost target = closing(s0, m, from_slot, self.stack@);
        let mut j: usize = 0;
        while j < to_close.len()
            invariant
                0 <= j <= to_close@.len(),
                to_close@.to_set() == crate::vm::entries_from(m, from_slot),
                strictly_increasing_keys(to_close@),
                s0 == old(self).heap.slots(),
                m == old(self).open_upvalues.slots_to_values@,
                old(self).wf(),
                forall|k: usize| #[trigger] m.contains_key(k) && k >= from_slot ==> k < self.stack@.len(),
                target == closing(s0, m, from_slot, self.stack@),
                self.stack@ == old(self).stack@,
                self.heap.wf(),
                self.heap.sizes_fit(),
                self.heap.slots().len() == s0.len(),
                forall|i: int| 0 <= i < s0.len() ==> #[trigger] self.heap.slots()[i] == (if exists|q: int|
                    0 <= q < j && to_close@[q].1.0 == i {
                    target[i]
                } else {
                    s0[i]
                }),
                self.heap.free_slots() == old(self).heap.free_slots(),
                self.heap.gray() == old(self).heap.gray(),
                self.heap.bytes_allocated == old(self).heap.bytes_allocated,
                self.heap.next_gc == old(self).heap.next_gc,
                self.string_table == old(self).string_table,
                self.same_except_heap_and_upvalues(old(self)),
                self.open_upvalues.slots_to_values@ == m.restrict(Set::new(|k: usize| k < from_slot)),
            decreases to_close@.len() - j,
        {
            let (stack_slot, upvalue_ref) = to_close[j];
            proof {
                assert(to_close@.to_set().contains((stack_slot, upvalue_ref)));
                assert(m.contains_key(stack_slot) && m[stack_slot] == upvalue_ref);
                assert(open_upvalue_at(s0, upvalue_ref, stack_slot));
                assert(forall|q: int| 0 <= q < j ==> to_close@[q].1.0 != upvalue_ref.0) by {
                    assert forall|q: int| 0 <= q < j implies to_close@[q].1.0 != upvalue_ref.0 by {
                        let e = to_close@[q];
                        assert(to_close@.to_set().contains(e));
                        assert(m.contains_key(e.0) && m[e.0] == e.1);
                        assert(open_upvalue_at(s0, e.1, e.0));
                        assert(e.0 < stack_slot);
                    }
                }
            }
            let value = self.stack[stack_slot];
            let ghost before = self.heap.slots();
            let obj = self.heap.get_mut(upvalue_ref);
            let is_upvalue = match &obj.kind {
                ObjKind::Upvalue(_) => true,
                _ => false,
            };
            if is_upvalue {
                obj.kind = ObjKind::Upvalue(ObjUpvalue { location: UpvalueLocation::Closed(value) });
            }
            proof {
                let i0 = upvalue_ref.0 as int;
                assert(target[i0] == Some(closed_upvalue(value)));
                assert(self.heap.slots() == before.update(i0, target[i0]));
                assert forall|i: int| 0 <= i < s0.len() implies #[trigger] self.heap.slots()[i] == (if exists|q: int|
                    0 <= q < j + 1 && to_close@[q].1.0 == i {
                    target[i]
                } else {
                    s0[i]
                }) by {
                    if i == i0 {
                        assert(to_close@[j as int].1.0 == i);
                    } else {
                        if exists|q: int| 0 <= q < j + 1 && to_close@[q].1.0 == i {
                            let q = choose|q: int| 0 <= q < j + 1 && to_close@[q].1.0 == i;
                            assert(q != j);
                        }
                    }
                }
                assert(self.heap.wf());
                assert forall|i: int| live(self.heap.slots(), i) implies spec_size(self.heap.slots()[i]->0) <= usize::MAX by {
                    assert(live(before, i));
                    if i == i0 && is_upvalue {
                        assert(spec_size(self.heap.slots()[i]->0) == spec_size(before[i]->0));
                    }
                }
            }
            j = j + 1;
        }
        proof {
            assert forall|i: int| 0 <= i < s0.len() implies self.heap.slots()[i] == target[i] by {
                let _ = self.heap.slots()[i];
                if !(exists|q: int| 0 <= q < to_close@.len() && to_close@[q].1.0 == i) {
                    if let Some(o) = s0[i] {
                        if let ObjKind::Upvalue(u) = o.kind {
                            if let UpvalueLocation::Open(k) = u.location {
                                if k >= from_slot && m.contains_key(k) && m[k].0 == i {
                                    assert(crate::vm::entries_from(m, from_slot).contains((k, m[k])));
                                    assert(to_close@.contains((k, m[k])));
                                    let q = choose|q: int| 0 <= q < to_close@.len() && to_close@[q] == (k, m[k]);
                                    assert(to_close@[q].1.0 == i);
                                }
                            }
                        }
                    }
                }
            }
            assert(self.heap.slots() =~= target);
            assert forall|i: int| !marked(self.heap.slots(), i) by {
                if 0 <= i < s0.len() {
                    assert(!marked(s0, i));
                }
            }
            assert forall|h: u64| #[trigger] self.string_table.entries().contains_key(h) implies self.heap.spec_is_valid(
                self.string_table.entries()[h]) by {
                let e = self.string_table.entries()[h];
                assert(live(s0, e.0 as int));
            }
            assert forall|k: usize| #[trigger]
                self.open_upvalues.slots_to_values@.contains_key(k) implies open_upvalue_at(
                self.heap.slots(),
                self.open_upvalues.slots_to_values@[k],
                k,
            ) by {
                let g = m[k];
                assert(open_upvalue_at(s0, g, k));
            }
        }
    }

    /// The text of the string object `r`.
    pub fn get_heap_string(&self, r: GcRef) -> (t: &str)
        requires
            self.heap.spec_is_valid(r),
            self.heap.slots()[r.0 as int]->0.kind is String,
        ensures
            holds_string(self.heap.slots()[r.0 as int], t@),
    {
        match &self.heap.get(r).kind {
            ObjKind::String(s) => s.value.as_str(),
            _ => unreached(),
        }
    }

    /// The function object `r`.
    pub fn get_heap_function(&self, r: GcRef) -> (f: &ObjFunction)
        requires
            self.heap.spec_is_valid(r),
            self.heap.slots()[r.0 as int]->0.kind is Function,
        ensures
            self.heap.slots()[r.0 as int]->0.kind == ObjKind::Function(*f),
    {
        match &self.heap.get(r).kind {
            ObjKind::Function(f) => f,
            _ => unreached(),
        }
    }

    /// The closure object `r`.
    pub fn get_heap_closure(&self, r: GcRef) -> (c: &ObjClosure)
        requires
            self.heap.spec_is_valid(r),
            self.heap.slots()[r.0 as int]->0.kind is Closure,
        ensures
            self.heap.slots()[r.0 as int]->0.kind == ObjKind::Closure(*c),
    {
        match &self.heap.get(r).kind {
            ObjKind::Closure(c) => c,
            _ => unreached(),
        }
    }

    /// The bound method object `r`.
    pub fn get_heap_bound_method(&self, r: GcRef) -> (b: &ObjBoundMethod)
        requires
            self.heap.spec_is_valid(r),
            self.heap.slots()[r.0 as int]->0.kind is BoundMethod,
        ensures
            self.heap.slots()[r.0 as int]->0.kind == ObjKind::BoundMethod(*b),
    {
        match &self.heap.get(r).kind {
            ObjKind::BoundMethod(b) => b,
            _ => unreached(),
        }
    }

    /// The upvalue object `r`.
    pub fn get_heap_upvalue(&self, r: GcRef) -> (u: &ObjUpvalue)
        requires
            self.heap.spec_is_valid(r),
            self.heap.slots()[r.0 as int]->0.kind is Upvalue,
        ensures
            self.heap.slots()[r.0 as int]->0.kind == ObjKind::Upvalue(*u),
    {
        match &self.heap.get(r).kind {
            ObjKind::Upvalue(u) => u,
            _ => unreached(),
        }
    }

    /// All but the stack and the constants is as in `other`.
    pub open spec fn same_but_stack_and_constants(&self, other: &Self) -> bool {
        &&& self.frame_idx == other.frame_idx
        &&& self.frames@ == other.frames@
        &&& self.interner == other.interner
        &&& self.string_table == other.string_table
        &&& global_entries(self.globals) == global_entries(other.globals)
        &&& self.codemap == other.codemap
        &&& self.open_upvalues.slots_to_values@ == other.open_upvalues.slots_to_values@
        &&& self.heap == other.heap
        &&& self.script_closure == other.script_closure
    }

    /// Appends `v` to the constants.
    pub fn add_constant(&mut self, v: Value)
        ensures
            final(self).constants@ == old(self).constants@.push(v),
            final(self).stack@ == old(self).stack@,
            final(self).same_but_stack_and_constants(old(self)),
    {
        self.constants.push(v);
    }

    /// Pushes `v` on the stack.
    pub fn push(&mut self, v: Value)
        ensures
            final(self).stack@ == old(self).stack@.push(v),
            final(self).constants@ == old(self).constants@,
            final(self).same_but_stack_and_constants(old(self)),
    {
        self.stack.push(v);
    }

    /// Pops the top of the stack; an error when the stack is empty.
    pub fn pop(&mut self) -> (r: Result<Value, VirtualMachineError>)
        ensures
            old(self).stack@.len() > 0 ==> r == Ok::<Value, VirtualMachineError>(old(self).stack@.last())
                && final(self).stack@ == old(self).stack@.drop_last(),
            old(self).stack@.len() == 0 ==> (r matches Err(VirtualMachineError::MissingStackOperand))
                && final(self).stack@ == old(self).stack@,
            final(self).constants@ == old(self).constants@,
            final(self).same_but_stack_and_constants(old(self)),
    {
        match self.stack.pop() {
            Some(v) => Ok(v),
            None => Err(VirtualMachineError::MissingStackOperand),
        }
    }

    /// The top of the stack; an error when the stack is empty.
    pub fn peek(&mut self) -> (r: Result<Value, VirtualMachineError>)
        ensures
            old(self).stack@.len() > 0 ==> r == Ok::<Value, VirtualMachineError>(old(self).stack@.last()),
            old(self).stack@.len() == 0 ==> (r matches Err(VirtualMachineError::MissingStackOperand)),
            *final(self) == *old(self),
    {
        let n = self.stack.len();
        if n > 0 {
            Ok(self.stack[n - 1])
        } else {
            Err(VirtualMachineError::MissingStackOperand)
        }
    }

    /// Whether `value` counts as true.
    pub fn is_truthy(&self, value: &Value) -> (b: bool)
        ensures
            b == truthy(*value),
    {
        match value {
            Value::Number(_) => true,
            Value::Bool(x) => *x,
            Value::Nil => false,
            Value::Object(_) => true,
        }
    }

    /// The position the next instruction written to `code` gets.
    pub fn next_instruction(&self, code: &ByteCode) -> (r: usize)
        ensures
            r == code.code@.len(),
    {
        code.size()
    }

    /// The distance from `ip` to the end of `code`, as a jump offset.
    pub fn offset_since(&self, ip: usize, code: &ByteCode) -> (r: JumpOffset)
        requires
            ip <= code.code@.len(),
        ensures
            r.0 == (code.code@.len() - ip) as i16,
    {
        JumpOffset::new(ip, self.next_instruction(code))
    }

    /// Writes `new_offset` over the two bytes at `addr` of `code`.
    pub fn patch_offset(&mut self, code: &mut ByteCode, addr: usize, new_offset: JumpOffset)
        requires
            addr + 2 <= old(code).code@.len(),
        ensures
            final(code).code@ == old(code).code@.take(addr as int) + i16_bytes(new_offset.0)
                + old(code).code@.skip(addr + 2),
            final(code).lines@ == old(code).lines@,
            *final(self) == *old(self),
    {
        code.patch_offset(addr, new_offset);
    }

    /// The source line of the byte position `start`, or 0 where it is unknown.
    pub fn lookup_source_line(&self, start: usize) -> (r: usize)
        requires
            start < usize::MAX - 1,
        ensures
            r == (match line_of(&self.codemap, start as int) {
                Some(l) => l,
                None => 0,
            }),
    {
        match self.codemap.line_at(start) {
            Some(l) => l,
            None => 0,
        }
    }

    /// The function a call frame runs, where its closure and function are live objects.
    pub open spec fn frame_function(&self, f: CallFrame) -> Option<ObjFunction> {
        let s = self.heap.slots();
        if live(s, f.closure.0 as int) {
            match s[f.closure.0 as int]->0.kind {
                ObjKind::Closure(c) => if live(s, c.function.0 as int) {
                    match s[c.function.0 as int]->0.kind {
                        ObjKind::Function(fun) => Some(fun),
                        _ => None,
                    }
                } else {
                    None
                },
                _ => None,
            }
        } else {
            None
        }
    }

    /// The frame runs a live function, its instruction pointer has a line, and the function's
    /// name is a live string.
    pub open spec fn frame_ready(&self, f: CallFrame) -> bool {
        match self.frame_function(f) {
            Some(fun) => f.ip < fun.code.lines@.len() && fun.code.wf() && live(
                self.heap.slots(),
                fun.name.0 as int,
            ) && self.heap.slots()[fun.name.0 as int]->0.kind is String,
            None => false,
        }
    }

    /// Whether the frame is ready to be reported and run.
    pub fn check_frame(&self, f: &CallFrame) -> (b: bool)
        ensures
            b == self.frame_ready(*f),
    {
        if !self.heap.is_valid(f.closure) {
            return false;
        }
        match &self.heap.get(f.closure).kind {
            ObjKind::Closure(c) => {
                if !self.heap.is_valid(c.function) {
                    return false;
                }
                match &self.heap.get(c.function).kind {
                    ObjKind::Function(fun) => {
                        if !(f.ip < fun.code.lines.len() && fun.code.code.len() == fun.code.lines.len()) {
                            return false;
                        }
                        if !self.heap.is_valid(fun.name) {
                            return false;
                        }
                        match &self.heap.get(fun.name).kind {
                            ObjKind::String(_) => true,
                            _ => false,
                        }
                    },
                    _ => false,
                }
            },
            _ => false,
        }
    }

    /// The report line of a frame: its source line and its function's name.
    pub open spec fn frame_report(&self, f: CallFrame) -> Seq<char> {
        let fun = self.frame_function(f)->0;
        "[line "@ + decimal_text(fun.code.lines@[f.ip as int] as nat) + "] in "@
            + self.heap.slots()[fun.name.0 as int]->0.kind->String_0.value@
    }

    /// The report line of `frame`.
    pub fn stacktrace_line(&self, frame: &CallFrame) -> (r: String)
        requires
            self.frame_ready(*frame),
        ensures
            r@ == self.frame_report(*frame),
    {
        let closure = self.get_heap_closure(frame.closure);
        let function = self.get_heap_function(closure.function);
        let name = self.get_heap_string(function.name);
        let mut r = String::from_str("[line ");
        r.append(decimal(function.code.line(frame.ip())).as_str());
        r.append("] in ");
        r.append(name);
        r
    }

    /// The report of the frames from `k` up, innermost first, one per line.
    pub open spec fn trace_from(&self, k: int) -> Seq<char>
        decreases self.frames@.len() - k,
    {
        if k < 0 || k >= self.frames@.len() {
            Seq::empty()
        } else {
            self.trace_from(k + 1) + (if k != self.frame_idx {
                "\n"@
            } else {
                Seq::empty()
            }) + self.frame_report(self.frames@[k])
        }
    }

    /// The stack trace: the report of each frame, innermost first, a line break before each
    /// frame but the current one.
    pub fn stacktrace(&self) -> (r: String)
        requires
            forall|k: int| 0 <= k < self.frames@.len() ==> self.frame_ready(#[trigger] self.frames@[k]),
        ensures
            r@ == self.trace_from(0),
    {
        let mut result = String::new();
        let mut f_idx = self.frames.len();
        while f_idx > 0
            invariant
                0 <= f_idx <= self.frames@.len(),
                forall|k: int| 0 <= k < self.frames@.len() ==> self.frame_ready(#[trigger] self.frames@[k]),
                result@ == self.trace_from(f_idx as int),
            decreases f_idx,
        {
            f_idx = f_idx - 1;
            if f_idx != self.frame_idx {
                result.append("\n");
            }
            let line = self.stacktrace_line(&self.frames[f_idx]);
            result.append(line.as_str());
        }
        result
    }

    /// A run-time error with message `error` and the current stack trace.
    pub fn unhandled_error(&self, error: String) -> (r: VirtualMachineError)
        requires
            forall|k: int| 0 <= k < self.frames@.len() ==> self.frame_ready(#[trigger] self.frames@[k]),
        ensures
            r matches VirtualMachineError::RuntimeError { kind, stacktrace } && (kind matches RuntimeErrorKind::Unexpected { error: e }
                && e == error) && stacktrace@ == self.trace_from(0),
    {
        VirtualMachineError::RuntimeError {
            kind: RuntimeErrorKind::Unexpected { error },
            stacktrace: self.stacktrace(),
        }
    }

    /// The instruction pointer of the current frame.
    pub fn ip(&self) -> (r: usize)
        requires
            self.frame_idx < self.frames@.len(),
        ensures
            r == self.frames@[self.frame_idx as int].ip,
    {
        self.frames[self.frame_idx].ip
    }

    /// Where the current frame's locals start on the stack.
    pub fn locals_idx(&self) -> (r: usize)
        requires
            self.frame_idx < self.frames@.len(),
        ensures
            r == self.frames@[self.frame_idx as int].locals_idx,
    {
        self.frames[self.frame_idx].locals_idx
    }

    /// The source line of the current instruction.
    pub fn current_line(&self) -> (r: usize)
        requires
            self.frame_idx < self.frames@.len(),
            self.frame_ready(self.frames@[self.frame_idx as int]),
        ensures
            r == self.frame_function(self.frames@[self.frame_idx as int])->0.code.lines@[self.frames@[self.frame_idx as int].ip as int],
    {
        let frame = &self.frames[self.frame_idx];
        let closure = self.get_heap_closure(frame.closure);
        let function = self.get_heap_function(closure.function);
        function.code.line(self.ip())
    }

    /// Decodes the current frame's next instruction.
    pub fn next_op(&mut self) -> (r: Option<Result<(OpCode, usize), OpCodeError>>)
        requires
            old(self).frame_idx < old(self).frames@.len(),
            old(self).frame_function(old(self).frames@[old(self).frame_idx as int]) is Some,
            operands_fit(
                old(self).frame_function(old(self).frames@[old(self).frame_idx as int])->0.code.code@,
                old(self).frames@[old(self).frame_idx as int].ip as int,
            ),
        ensures
            *final(self) == *old(self),
            r == (match spec_decode(
                old(self).frame_function(old(self).frames@[old(self).frame_idx as int])->0.code.code@,
                old(self).frames@[old(self).frame_idx as int].ip as int,
            ) {
                None => None,
                Some((op, n)) => Some(Ok::<(OpCode, usize), OpCodeError>((op, n as usize))),
            }),
    {
        let frame = &self.frames[self.frame_idx];
        let closure = self.get_heap_closure(frame.closure);
        let function = self.get_heap_function(closure.function);
        function.code.read_next(frame.ip)
    }

    /// The value of the global variable `name`, if it is defined.
    pub fn get_global(&self, name: StrId) -> (r: Option<Value>)
        ensures
            r == (if global_entries(self.globals).contains_key(name) {
                Some(global_entries(self.globals)[name])
            } else {
                None
            }),
    {
        self.globals.get(name)
    }

    /// Defines the global variable `name`, or assigns it, with `value`.
    pub fn set_global(&mut self, name: StrId, value: Value)
        ensures
            global_entries(final(self).globals) == global_entries(old(self).globals).insert(name, value),
            final(self).frame_idx == old(self).frame_idx,
            final(self).frames@ == old(self).frames@,
            final(self).interner == old(self).interner,
            final(self).string_table == old(self).string_table,
            final(self).stack@ == old(self).stack@,
            final(self).constants@ == old(self).constants@,
            final(self).codemap == old(self).codemap,
            final(self).open_upvalues.slots_to_values@ == old(self).open_upvalues.slots_to_values@,
            final(self).heap == old(self).heap,
            final(self).script_closure == old(self).script_closure,
    {
        self.globals.insert(name, value);
    }

    /// Whether an object of the fixed size plus `extra` bytes can be allocated now.
    pub(crate) fn heap_room(&self, extra: usize) -> (b: bool)
        ensures
            b == self.can_allocate(vstd::layout::size_of::<Obj>() + extra),
    {
        let base = core::mem::size_of::<Obj>();
        if extra > usize::MAX - base {
            return false;
        }
        let size = base + extra;
        let bytes = self.heap.bytes_allocated;
        if bytes > usize::MAX - size || bytes > usize::MAX / 2 {
            return false;
        }
        self.heap.free_list.len() > 0 || self.heap.objects.len() <= 0xffff_ffff
    }

    /// The source line of the byte position `pos`, or 0 where it is unknown.
    fn source_line(&self, pos: usize) -> (r: usize)
        ensures
            r == (if pos < usize::MAX - 1 {
                match line_of(&self.codemap, pos as int) {
                    Some(l) => l,
                    None => 0,
                }
            } else {
                0
            }),
    {
        if pos < usize::MAX - 1 {
            self.lookup_source_line(pos)
        } else {
            0
        }
    }

    /// Interns `s` as a string object and appends it to the constants; its index, truncated to
    /// 16 bits, is returned.
    fn string_constant(&mut self, s: String) -> (r: Result<u16, VirtualMachineError>)
        requires
            old(self).wf(),
        ensures
            final(self).wf(),
            final(self).codemap == old(self).codemap,
            final(self).script_closure == old(self).script_closure,
            r is Err <==> !old(self).can_allocate(
                (vstd::layout::size_of::<Obj>() + vstd::utf8::encode_utf8(s@).len()) as int,
            ),
            r matches Err(e) ==> e is Unhandled && *final(self) == *old(self),
            r matches Ok(idx) ==> {
                &&& idx == old(self).constants@.len() as u16
                &&& final(self).constants@ == old(self).constants@.push(final(self).constants@.last())
                &&& final(self).constants@.last() matches Value::Object(g)
                &&& holds_string(final(self).heap.slots()[g.0 as int], s@)
            },
    {
        if !self.heap_room(s.as_str().as_bytes().len()) {
            return Err(limit_error());
        }
        let name_ref = self.alloc_string(s);
        let idx = self.constants.len() as u16;
        self.constants.push(Value::Object(name_ref));
        Ok(idx)
    }

    /// Emits the store of the value on the stack into a new variable `ident`: a global at the
    /// top level, else a new local of the scope; a second local of one name in one block is an
    /// error.
    fn compile_declaration_from_stack<'a>(
        &mut self,
        ident: &'a AstIdent,
        context: &mut LexicalScope<'a>,
        result: &mut ByteCode,
    ) -> (r: Result<(), VirtualMachineError>)
        requires
            old(self).wf(),
            old(result).wf(),
        ensures
            errors_listed(r),
            final(self).wf(),
            final(self).codemap == old(self).codemap,
            final(self).script_closure == old(self).script_closure,
            final(result).wf(),
            code_extends(old(result).code@, final(result).code@),
            same_shape(*old(context), *final(context)),
            old(context).block_depth == 0 ==> r is Ok,
            old(context).block_depth != 0 && already_declared(*old(context), ident.node@)
                ==> redeclared(*ident, r) && *final(context) == *old(context),
            old(context).block_depth != 0 && !already_declared(*old(context), ident.node@) ==> (r
                is Ok <==> old(context).args@.len() + old(context).locals@.len() + 2 < usize::MAX),
    {
        proof {
            lemma_same_shape_refl(*context);
        }
        if context.is_toplevel() {
            let ident_idx = self.interner.intern_str(ident.node.as_str());
            let line = self.source_line(ident.span.start);
            result.write_op(OpCode::DeclareGlobal(ident_idx), line);
        } else {
            if context.is_already_declared(ident.node.as_str()) {
                return Err(redeclaration(ident.span));
            }
            if !room_for_local(context) {
                return Err(limit_error());
            }
            let offset = context.new_local(ident.node.as_str());
            let line = self.source_line(ident.span.start);
            result.write_op(OpCode::SetLocal(offset as u16), line);
            proof {
                if context.parent is Some {
                    lemma_same_shape_refl(*context.parent->0);
                }
            }
        }
        Ok(())
    }

    /// Emits the store of the value on the stack into the variable `name`: a local, a captured
    /// variable, or else a global.
    fn compile_assignment_from_stack<'a>(
        &mut self,
        name: &'a str,
        span: Span,
        context: &mut LexicalScope<'a>,
        result: &mut ByteCode,
    ) -> (r: Result<(), VirtualMachineError>)
        requires
            old(self).wf(),
            old(result).wf(),
        ensures
            errors_listed(r),
            final(self).wf(),
            final(self).codemap == old(self).codemap,
            final(self).script_closure == old(self).script_closure,
            final(result).wf(),
            code_extends(old(result).code@, final(result).code@),
            same_shape(*old(context), *final(context)),
            final(self).constants@ == old(self).constants@,
            r is Ok ==> one_store(old(result).code@, final(result).code@),
            r is Ok ==> final(result).code@ == old(result).code@ + spec_encode(
                store_into(load_instruction(*old(context), name@, old(self).interner.strings())),
            ),
    {
        proof {
            lemma_same_shape_refl(*context);
        }
        if !room_for_local(context) {
            return Err(limit_error());
        }
        let line = self.source_line(span.start);
        if let Some(offset) = context.resolve_local(name) {
            result.write_op(OpCode::SetLocal(offset as u16), line);
        } else {
            if !scope_fits(context) {
                return Err(limit_error());
            }
            let ghost before = *context;
            match context.resolve_upvalue(name) {
                Some((idx, _)) => {
                    result.write_op(OpCode::SetUpvalue(idx as u16), line);
                },
                None => {
                    let idx = self.interner.intern_str(name);
                    result.write_op(OpCode::SetGlobal(idx), line);
                },
            }
            proof {
                lemma_resolve_keeps_shape(before, *context, name);
            }
        }
        Ok(())
    }

    /// Emits the load of the variable `name`: a local, a captured variable, or else a global.
    fn compile_variable_load<'a>(
        &mut self,
        name: &'a str,
        line: usize,
        context: &mut LexicalScope<'a>,
        result: &mut ByteCode,
    ) -> (r: Result<(), VirtualMachineError>)
        requires
            old(self).wf(),
            old(result).wf(),
        ensures
            errors_listed(r),
            final(self).wf(),
            final(self).codemap == old(self).codemap,
            final(self).script_closure == old(self).script_closure,
            final(result).wf(),
            code_extends(old(result).code@, final(result).code@),
            same_shape(*old(context), *final(context)),
            r is Ok ==> final(result).code@ == old(result).code@ + spec_encode(
                load_instruction(*old(context), name@, old(self).interner.strings()),
            ),
            r is Ok ==> ident_load(old(result).code@, final(result).code@),
    {
        proof {
            lemma_same_shape_refl(*context);
        }
        if !room_for_local(context) {
            return Err(limit_error());
        }
        if let Some(offset) = context.resolve_local(name) {
            result.write_op(OpCode::GetLocal(offset as u16), line);
        } else {
            if !scope_fits(context) {
                return Err(limit_error());
            }
            let ghost before = *context;
            match context.resolve_upvalue(name) {
                Some((idx, _)) => {
                    result.write_op(OpCode::GetUpvalue(idx as u16), line);
                },
                None => {
                    let name_idx = self.interner.intern_str(name);
                    result.write_op(OpCode::GetGlobal(name_idx), line);
                },
            }
            proof {
                lemma_resolve_keeps_shape(before, *context, name);
            }
        }
        Ok(())
    }

    /// Emits the load of `name` (`this` or `super`), which must resolve to a local or a
    /// captured variable.
    fn compile_bound_load<'a>(
        &mut self,
        name: &'a str,
        line: usize,
        context: &mut LexicalScope<'a>,
        result: &mut ByteCode,
    ) -> (r: Result<(), VirtualMachineError>)
        requires
            old(self).wf(),
            old(result).wf(),
        ensures
            errors_listed(r),
            final(self).wf(),
            final(self).codemap == old(self).codemap,
            final(self).script_closure == old(self).script_closure,
            final(result).wf(),
            code_extends(old(result).code@, final(result).code@),
            same_shape(*old(context), *final(context)),
            final(self).constants@ == old(self).constants@,
            r is Ok ==> one_load(old(result).code@, final(result).code@),
    {
        proof {
            lemma_same_shape_refl(*context);
        }
        if !room_for_local(context) || !scope_fits(context) {
            return Err(limit_error());
        }
        if let Some(offset) = context.resolve_local(name) {
            result.write_op(OpCode::GetLocal(offset as u16), line);
            Ok(())
        } else {
            let ghost before = *context;
            let found = context.resolve_upvalue(name);
            proof {
                lemma_resolve_keeps_shape(before, *context, name);
            }
            match found {
                Some((idx, _)) => {
                    result.write_op(OpCode::GetUpvalue(idx as u16), line);
                    Ok(())
                },
                None => {
                    let mut msg = String::from_str("'");
                    msg.append(name);
                    msg.append("' not found in scope");
                    Err(VirtualMachineError::Unhandled(msg))
                },
            }
        }
    }


    /// Emits the code of the expression `expr`, which leaves its value on the stack.
    #[verifier::rlimit(50)]
    pub fn compile_expr<'a, F: Fn(&str) -> u64>(
        &mut self,
        expr: &'a AstExpression,
        context: &mut LexicalScope<'a>,
        result: &mut ByteCode,
        number: &F,
    ) -> (r: Result<(), VirtualMachineError>)
        requires
            old(self).wf(),
            old(result).wf(),
            forall|t: &str| number.requires((t,)),
        ensures
            errors_listed(r),
            final(self).wf(),
            final(self).codemap == old(self).codemap,
            final(self).script_closure == old(self).script_closure,
            final(result).wf(),
            code_extends(old(result).code@, final(result).code@),
            same_shape(*old(context), *final(context)),
            r is Ok ==> expr_emits(
                expr.node,
                old(result).code@,
                final(result).code@,
                old(self).constants@.len(),
            ),
            expr.node matches Expression::Identier(name) ==> (r is Ok ==> final(result).code@
                == old(result).code@ + spec_encode(
                load_instruction(*old(context), name@, old(self).interner.strings()),
            )),
            pure_expr(expr.node) ==> r is Ok,
            pure_expr(expr.node) ==> *final(context) == *old(context),
            expr.node is This && old(context).enclosing_class is None ==> (r matches Err(
                VirtualMachineError::CompileError(es),
            ) && es@.len() == 1 && (es@[0] matches ParseError::UnexpectedToken { span, expectation }
                && span == expr.span && expectation@ == "Can't use 'this' outside of a class."@)),
            expr.node is Super && expr.span.start <= usize::MAX - 5 && old(context).enclosing_class
                is None ==> fails_with(
                r,
                ParseError::SuperOutsideClass {
                    span: Span { start: expr.span.start, end: (expr.span.start + 5) as usize },
                },
            ),
            expr.node is Super && expr.span.start <= usize::MAX - 5 && old(context).enclosing_class
                is Some && !old(context).enclosing_class->0.has_superclass ==> fails_with(
                r,
                ParseError::SuperWithoutSuperclass {
                    span: Span { start: expr.span.start, end: (expr.span.start + 5) as usize },
                },
            ),
            (expr.node is This || expr.node is Super) && !(old(context).enclosing_class matches Some(
                c,
            ) && (expr.node is This || c.has_superclass)) ==> *final(result) == *old(result)
                && *final(context) == *old(context),
        decreases expr,
    {
        proof {
            lemma_same_shape_refl(*context);
        }
        match &expr.node {
            Expression::Assignment { lvalue, rvalue } => {
                if let Expression::Identier(name) = &lvalue.node {
                        let ghost k0 = result.code@;
                        {
                            let ghost before = *context;
                            match self.compile_expr(rvalue, context, result, number) {
                                Ok(_) => {},
                                Err(err) => {
                                    proof {
                                        lemma_same_shape_trans(*old(context), before, *context);
                                    }
                                    return Err(err);
                                },
                            }
                            proof {
                                lemma_same_shape_trans(*old(context), before, *context);
                            }
                        }
                    let ghost before_assign = *context;
                    let ghost end = (result.code@, self.constants@.len());
                    match self.compile_assignment_from_stack(name.as_str(), expr.span, context, result) {
                        Ok(_) => {},
                        Err(err) => {
                            proof {
                                lemma_same_shape_trans(*old(context), before_assign, *context);
                            }
                            return Err(err);
                        },
                    }
                    proof {
                        lemma_same_shape_trans(*old(context), before_assign, *context);
                    }
                    assert(code_extends(k0, end.0));
                }
            },
            Expression::Identier(name) => {
                let line = self.source_line(expr.span.start);
                match self.compile_variable_load(name.as_str(), line, context, result) {
                    Ok(_) => {},
                    Err(err) => {
                        return Err(err);
                    },
                }
            },
            Expression::Literal(AstLiteral::NumberLiteral(num)) => {
                let line = self.source_line(expr.span.start);
                result.write_op(OpCode::Constant(self.constants.len() as u16), line);
                let bits = number(num.as_str());
                self.add_constant(Value::Number(bits));
            },
            Expression::Literal(AstLiteral::StringLiteral(text)) => {
                if !self.heap_room(text.as_str().as_bytes().len()) {
                    return Err(limit_error());
                }
                let gc_ref = self.alloc_string(text.clone());
                let val = Value::Object(gc_ref);
                let line = self.source_line(expr.span.start);
                result.write_op(OpCode::Constant(self.constants.len() as u16), line);
                self.add_constant(val);
            },
            Expression::Literal(AstLiteral::BoolLiteral(x)) => {
                let line = self.source_line(expr.span.start);
                if *x {
                    result.write_op(OpCode::True, line);
                } else {
                    result.write_op(OpCode::False, line);
                }
            },
            Expression::Literal(AstLiteral::NilLiteral) => {
                let line = self.source_line(expr.span.start);
                result.write_op(OpCode::Nil, line);
            },
            Expression::Multiply { left, right } => {
            let ghost k0 = result.code@;
            let ghost c0 = self.constants@.len();
            {
                let ghost before = *context;
                match self.compile_expr(&**left, context, result, number) {
                    Ok(_) => {},
                    Err(err) => {
                        proof {
                            lemma_same_shape_trans(*old(context), before, *context);
                        }
                        return Err(err);
                    },
                }
                proof {
                    lemma_same_shape_trans(*old(context), before, *context);
                }
            }
            let ghost m = result.code@;
            let ghost c1 = self.constants@.len();
            {
                let ghost before = *context;
                match self.compile_expr(&**right, context, result, number) {
                    Ok(_) => {},
                    Err(err) => {
                        proof {
                            lemma_same_shape_trans(*old(context), before, *context);
                        }
                        return Err(err);
                    },
                }
                proof {
                    lemma_same_shape_trans(*old(context), before, *context);
                }
            }
            let line = self.source_line(left.span.start);
            let ghost pre = result.code@;
            result.write_op(OpCode::Multiply, line);
            assert(code_extends(k0, (m, c1).0) && code_extends((m, c1).0, pre));
            },
            Expression::Divide { left, right } => {
            let ghost k0 = result.code@;
            let ghost c0 = self.constants@.len();
            {
                let ghost before = *context;
                match self.compile_expr(&**left, context, result, number) {
                    Ok(_) => {},
                    Err(err) => {
                        proof {
                            lemma_same_shape_trans(*old(context), before, *context);
                        }
                        return Err(err);
                    },
                }
                proof {
                    lemma_same_shape_trans(*old(context), before, *context);
                }
            }
            let ghost m = result.code@;
            let ghost c1 = self.constants@.len();
            {
                let ghost before = *context;
                match self.compile_expr(&**right, context, result, number) {
                    Ok(_) => {},
                    Err(err) => {
                        proof {
                            lemma_same_shape_trans(*old(context), before, *context);
                        }
                        return Err(err);
                    },
                }
                proof {
                    lemma_same_shape_trans(*old(context), before, *context);
                }
            }
            let line = self.source_line(left.span.start);
            let ghost pre = result.code@;
            result.write_op(OpCode::Divide, line);
            assert(code_extends(k0, (m, c1).0) && code_extends((m, c1).0, pre));
            },
            Expression::Add { left, right } => {
            let ghost k0 = result.code@;
            let ghost c0 = self.constants@.len();
            {
                let ghost before = *context;
                match self.compile_expr(&**left, context, result, number) {
                    Ok(_) => {},
                    Err(err) => {
                        proof {
                            lemma_same_shape_trans(*old(context), before, *context);
                        }
                        return Err(err);
                    },
                }
                proof {
                    lemma_same_shape_trans(*old(context), before, *context);
                }
            }
            let ghost m = result.code@;
            let ghost c1 = self.constants@.len();
            {
                let ghost before = *context;
                match self.compile_expr(&**right, context, result, number) {
                    Ok(_) => {},
                    Err(err) => {
                        proof {
                            lemma_same_shape_trans(*old(context), before, *context);
                        }
                        return Err(err);
                    },
                }
                proof {
                    lemma_same_shape_trans(*old(context), before, *context);
                }
            }
            let line = self.source_line(left.span.start);
            let ghost pre = result.code@;
            result.write_op(OpCode::Add, line);
            assert(code_extends(k0, (m, c1).0) && code_extends((m, c1).0, pre));
            },
            Expression::Subtract { left, right } => {
            let ghost k0 = result.code@;
            let ghost c0 = self.constants@.len();
            {
                let ghost before = *context;
                match self.compile_expr(&**left, context, result, number) {
                    Ok(_) => {},
                    Err(err) => {
                        proof {
                            lemma_same_shape_trans(*old(context), before, *context);
                        }
                        return Err(err);
                    },
                }
                proof {
                    lemma_same_shape_trans(*old(context), before, *context);
                }
            }
            let ghost m = result.code@;
            let ghost c1 = self.constants@.len();
            {
                let ghost before = *context;
                match self.compile_expr(&**right, context, result, number) {
                    Ok(_) => {},
                    Err(err) => {
                        proof {
                            lemma_same_shape_trans(*old(context), before, *context);
                        }
                        return Err(err);
                    },
                }
                proof {
                    lemma_same_shape_trans(*old(context), before, *context);
                }
            }
            let line = self.source_line(left.span.start);
            let ghost pre = result.code@;
            result.write_op(OpCode::Subtract, line);
            assert(code_extends(k0, (m, c1).0) && code_extends((m, c1).0, pre));
            },
            Expression::UnaryNegation { expr: inner } => {
            let ghost k0 = result.code@;
            let ghost c0 = self.constants@.len();
            {
                let ghost before = *context;
                match self.compile_expr(&**inner, context, result, number) {
                    Ok(_) => {},
                    Err(err) => {
                        proof {
                            lemma_same_shape_trans(*old(context), before, *context);
                        }
                        return Err(err);
                    },
                }
                proof {
                    lemma_same_shape_trans(*old(context), before, *context);
                }
            }
            let line = self.source_line(inner.span.start);
            let ghost pre = result.code@;
            result.write_op(OpCode::Negate, line);
            assert(code_extends(k0, pre));
            },
            Expression::Grouping { expr: inner } => {
            {
                let ghost before = *context;
                match self.compile_expr(&**inner, context, result, number) {
                    Ok(_) => {},
                    Err(err) => {
                        proof {
                            lemma_same_shape_trans(*old(context), before, *context);
                        }
                        return Err(err);
                    },
                }
                proof {
                    lemma_same_shape_trans(*old(context), before, *context);
                }
            }
            },
            Expression::UnaryNot { expr: inner } => {
            let ghost k0 = result.code@;
            let ghost c0 = self.constants@.len();
            {
                let ghost before = *context;
                match self.compile_expr(&**inner, context, result, number) {
                    Ok(_) => {},
                    Err(err) => {
                        proof {
                            lemma_same_shape_trans(*old(context), before, *context);
                        }
                        return Err(err);
                    },
                }
                proof {
                    lemma_same_shape_trans(*old(context), before, *context);
                }
            }
            let line = self.source_line(inner.span.start);
            let ghost pre = result.code@;
            result.write_op(OpCode::Not, line);
            assert(code_extends(k0, pre));
            },
            Expression::Logical(LogicalExpression::Greater { left, right }) => {
            let ghost k0 = result.code@;
            let ghost c0 = self.constants@.len();
            {
                let ghost before = *context;
                match self.compile_expr(&**left, context, result, number) {
                    Ok(_) => {},
                    Err(err) => {
                        proof {
                            lemma_same_shape_trans(*old(context), before, *context);
                        }
                        return Err(err);
                    },
                }
                proof {
                    lemma_same_shape_trans(*old(context), before, *context);
                }
            }
            let ghost m = result.code@;
            let ghost c1 = self.constants@.len();
            {
                let ghost before = *context;
                match self.compile_expr(&**right, context, result, number) {
                    Ok(_) => {},
                    Err(err) => {
                        proof {
                            lemma_same_shape_trans(*old(context), before, *context);
                        }
                        return Err(err);
                    },
                }
                proof {
                    lemma_same_shape_trans(*old(context), before, *context);
                }
            }
            let line = self.source_line(left.span.start);
            let ghost pre = result.code@;
            result.write_op(OpCode::Greater, line);
            assert(code_extends(k0, (m, c1).0) && code_extends((m, c1).0, pre));
            },
            Expression::Logical(LogicalExpression::Less { left, right }) => {
            let ghost k0 = result.code@;
            let ghost c0 = self.constants@.len();
            {
                let ghost before = *context;
                match self.compile_expr(&**right, context, result, number) {
                    Ok(_) => {},
                    Err(err) => {
                        proof {
                            lemma_same_shape_trans(*old(context), before, *context);
                        }
                        return Err(err);
                    },
                }
                proof {
                    lemma_same_shape_trans(*old(context), before, *context);
                }
            }
            let ghost m = result.code@;
            let ghost c1 = self.constants@.len();
            {
                let ghost before = *context;
                match self.compile_expr(&**left, context, result, number) {
                    Ok(_) => {},
                    Err(err) => {
                        proof {
                            lemma_same_shape_trans(*old(context), before, *context);
                        }
                        return Err(err);
                    },
                }
                proof {
                    lemma_same_shape_trans(*old(context), before, *context);
                }
            }
            let line = self.source_line(left.span.start);
            let ghost pre = result.code@;
            result.write_op(OpCode::Less, line);
            assert(code_extends(k0, (m, c1).0) && code_extends((m, c1).0, pre));
            },
            Expression::Logical(LogicalExpression::GreaterEqual { left, right }) => {
            let ghost k0 = result.code@;
            let ghost c0 = self.constants@.len();
            {
                let ghost before = *context;
                match self.compile_expr(&**right, context, result, number) {
                    Ok(_) => {},
                    Err(err) => {
                        proof {
                            lemma_same_shape_trans(*old(context), before, *context);
                        }
                        return Err(err);
                    },
                }
                proof {
                    lemma_same_shape_trans(*old(context), before, *context);
                }
            }
            let ghost m = result.code@;
            let ghost c1 = self.constants@.len();
            {
                let ghost before = *context;
                match self.compile_expr(&**left, context, result, number) {
                    Ok(_) => {},
                    Err(err) => {
                        proof {
                            lemma_same_shape_trans(*old(context), before, *context);
                        }
                        return Err(err);
                    },
                }
                proof {
                    lemma_same_shape_trans(*old(context), before, *context);
                }
            }
            let line = self.source_line(left.span.start);
            let ghost pre = result.code@;
            result.write_op(OpCode::Less, line);
            result.write_op(OpCode::Not, line);
            assert(code_extends(k0, (m, c1).0) && code_extends((m, c1).0, pre));
            },
            Expression::Logical(LogicalExpression::LessEqual { left, right }) => {
            let ghost k0 = result.code@;
            let ghost c0 = self.constants@.len();
            {
                let ghost before = *context;
                match self.compile_expr(&**left, context, result, number) {
                    Ok(_) => {},
                    Err(err) => {
                        proof {
                            lemma_same_shape_trans(*old(context), before, *context);
                        }
                        return Err(err);
                    },
                }
                proof {
                    lemma_same_shape_trans(*old(context), before, *context);
                }
            }
            let ghost m = result.code@;
            let ghost c1 = self.constants@.len();
            {
                let ghost before = *context;
                match self.compile_expr(&**right, context, result, number) {
                    Ok(_) => {},
                    Err(err) => {
                        proof {
                            lemma_same_shape_trans(*old(context), before, *context);
                        }
                        return Err(err);
                    },
                }
                proof {
                    lemma_same_shape_trans(*old(context), before, *context);
                }
            }
            let line = self.source_line(left.span.start);
            let ghost pre = result.code@;
            result.write_op(OpCode::Greater, line);
            result.write_op(OpCode::Not, line);
            assert(code_extends(k0, (m, c1).0) && code_extends((m, c1).0, pre));
            },
            Expression::Logical(LogicalExpression::Equal { left, right }) => {
            let ghost k0 = result.code@;
            let ghost c0 = self.constants@.len();
            {
                let ghost before = *context;
                match self.compile_expr(&**left, context, result, number) {
                    Ok(_) => {},
                    Err(err) => {
                        proof {
                            lemma_same_shape_trans(*old(context), before, *context);
                        }
                        return Err(err);
                    },
                }
                proof {
                    lemma_same_shape_trans(*old(context), before, *context);
                }
            }
            let ghost m = result.code@;
            let ghost c1 = self.constants@.len();
            {
                let ghost before = *context;
                match self.compile_expr(&**right, context, result, number) {
                    Ok(_) => {},
                    Err(err) => {
                        proof {
                            lemma_same_shape_trans(*old(context), before, *context);
                        }
                        return Err(err);
                    },
                }
                proof {
                    lemma_same_shape_trans(*old(context), before, *context);
                }
            }
            let line = self.source_line(left.span.start);
            let ghost pre = result.code@;
            result.write_op(OpCode::Equal, line);
            assert(code_extends(k0, (m, c1).0) && code_extends((m, c1).0, pre));
            },
            Expression::Logical(LogicalExpression::NotEqual { left, right }) => {
            let ghost k0 = result.code@;
            let ghost c0 = self.constants@.len();
            {
                let ghost before = *context;
                match self.compile_expr(&**left, context, result, number) {
                    Ok(_) => {},
                    Err(err) => {
                        proof {
                            lemma_same_shape_trans(*old(context), before, *context);
                        }
                        return Err(err);
                    },
                }
                proof {
                    lemma_same_shape_trans(*old(context), before, *context);
                }
            }
            let ghost m = result.code@;
            let ghost c1 = self.constants@.len();
            {
                let ghost before = *context;
                match self.compile_expr(&**right, context, result, number) {
                    Ok(_) => {},
                    Err(err) => {
                        proof {
                            lemma_same_shape_trans(*old(context), before, *context);
                        }
                        return Err(err);
                    },
                }
                proof {
                    lemma_same_shape_trans(*old(context), before, *context);
                }
            }
            let line = self.source_line(left.span.start);
            let ghost pre = result.code@;
            result.write_op(OpCode::Equal, line);
            result.write_op(OpCode::Not, line);
            assert(code_extends(k0, (m, c1).0) && code_extends((m, c1).0, pre));
            },
            Expression::Logical(LogicalExpression::And { left, right }) => {
            let ghost k0 = result.code@;
            let ghost c0 = self.constants@.len();
            {
                let ghost before = *context;
                match self.compile_expr(&**left, context, result, number) {
                    Ok(_) => {},
                    Err(err) => {
                        proof {
                            lemma_same_shape_trans(*old(context), before, *context);
                        }
                        return Err(err);
                    },
                }
                proof {
                    lemma_same_shape_trans(*old(context), before, *context);
                }
            }
            let pos_after_left = self.next_instruction(result);
            let ghost m = result.code@;
            let ghost c1 = self.constants@.len();
            let line = self.source_line(left.span.start);
            result.write_op(OpCode::JumpIfFalse(i16::MAX), line);
            assert(result.code@.len() == pos_after_left + 3);
            {
                let ghost before = *context;
                match self.compile_expr(&**right, context, result, number) {
                    Ok(_) => {},
                    Err(err) => {
                        proof {
                            lemma_same_shape_trans(*old(context), before, *context);
                        }
                        return Err(err);
                    },
                }
                proof {
                    lemma_same_shape_trans(*old(context), before, *context);
                }
            }
            let end = self.next_instruction(result);
            assert(pos_after_left + 3 <= end);
            let ghost n = result.code@;
            let offset = self.offset_since(pos_after_left, result);
            self.patch_offset(result, pos_after_left + 1, offset);
            proof {
                assert(n =~= m + seq![12u8] + i16_bytes(i16::MAX) + n.skip(m.len() + 3int));
                lemma_patch_operand(m, 12u8, i16_bytes(i16::MAX), i16_bytes(offset.0), n.skip(m.len() + 3int));
                assert(result.code@ =~= m + spec_encode(OpCode::JumpIfFalse(offset.0)) + n.skip(m.len() + 3int));
            }
            assert(code_extends(k0, (m, c1).0) && code_extends((m, c1).0, n));
            },
            Expression::Logical(LogicalExpression::Or { left, right }) => {
            let ghost k0 = result.code@;
            let ghost c0 = self.constants@.len();
            {
                let ghost before = *context;
                match self.compile_expr(&**left, context, result, number) {
                    Ok(_) => {},
                    Err(err) => {
                        proof {
                            lemma_same_shape_trans(*old(context), before, *context);
                        }
                        return Err(err);
                    },
                }
                proof {
                    lemma_same_shape_trans(*old(context), before, *context);
                }
            }
            let ghost m = result.code@;
            let ghost c1 = self.constants@.len();
            let line = self.source_line(left.span.start);
            result.write_op(OpCode::JumpIfFalse(6), line);
            let jump_out = self.next_instruction(result);
            result.write_op(OpCode::Jump(i16::MAX), line);
            assert(result.code@.len() == jump_out + 3);
            {
                let ghost before = *context;
                match self.compile_expr(&**right, context, result, number) {
                    Ok(_) => {},
                    Err(err) => {
                        proof {
                            lemma_same_shape_trans(*old(context), before, *context);
                        }
                        return Err(err);
                    },
                }
                proof {
                    lemma_same_shape_trans(*old(context), before, *context);
                }
            }
            let end = self.next_instruction(result);
            assert(jump_out + 3 <= end);
            let ghost n = result.code@;
            let offset = self.offset_since(jump_out, result);
            self.patch_offset(result, jump_out + 1, offset);
            proof {
                let pre = m + spec_encode(OpCode::JumpIfFalse(6));
                assert(n =~= pre + seq![11u8] + i16_bytes(i16::MAX) + n.skip(m.len() + 6int));
                lemma_patch_operand(pre, 11u8, i16_bytes(i16::MAX), i16_bytes(offset.0), n.skip(m.len() + 6int));
                assert(result.code@ =~= m + spec_encode(OpCode::JumpIfFalse(6)) + spec_encode(OpCode::Jump(offset.0)) + n.skip(m.len() + 6int));
            }
            assert(code_extends(k0, (m, c1).0) && code_extends((m, c1).0, n));
            },
            Expression::Call { calee, arguments } => {
        let ghost k0 = result.code@;
        let ghost c0 = self.constants@.len();
        let line = self.source_line(calee.span.start);
        if let Expression::GetProperty { object, name } = &calee.node {
            {
                let ghost before = *context;
                match self.compile_expr(&**object, context, result, number) {
                    Ok(_) => {},
                    Err(err) => {
                        proof {
                            lemma_same_shape_trans(*old(context), before, *context);
                        }
                        return Err(err);
                    },
                }
                proof {
                    lemma_same_shape_trans(*old(context), before, *context);
                }
            }
            proof {
                assert forall|k: int| 0 <= k < arguments@.len() implies decreases_to!(*expr => arguments@[k]) by {
                    assert(decreases_to!(*expr => arguments@[k]));
                }
            }
            let ghost start = (result.code@, self.constants@.len());
            let ghost mut points: Seq<(Seq<u8>, nat)> = seq![start];
            let mut i: usize = 0;
            while i < arguments.len()
                invariant
                    0 <= i <= arguments@.len(),
                    points.len() == i + 1,
                    points[0] == start,
                    points.last() == (result.code@, self.constants@.len()),
                    code_extends(start.0, result.code@),
                    forall|k: int|
                        0 <= k < i ==> code_extends(points[k].0, #[trigger] points[k + 1].0)
                            && expr_emits(arguments@[k].node, points[k].0, points[k + 1].0, points[k].1),
                    forall|k: int| 0 <= k < arguments@.len() ==> decreases_to!(*expr => arguments@[k]),
                    self.wf(),
                    self.codemap == old(self).codemap,
                    self.script_closure == old(self).script_closure,
                    result.wf(),
                    code_extends(old(result).code@, result.code@),
                    same_shape(*old(context), *context),
                    forall|t: &str| number.requires((t,)),
                    !pure_expr(expr.node),
                    !(expr.node is This) && !(expr.node is Super),
                decreases arguments@.len() - i,
            {
                {
                    let ghost before = *context;
                    proof {
                        assert(decreases_to!(*expr => arguments@[i as int]));
                    }
                    match self.compile_expr(&arguments[i], context, result, number) {
                        Ok(_) => {},
                        Err(err) => {
                            proof {
                                lemma_same_shape_trans(*old(context), before, *context);
                            }
                            return Err(err);
                        },
                    }
                    proof {
                        lemma_same_shape_trans(*old(context), before, *context);
                        points = points.push((result.code@, self.constants@.len()));
                    }
                }
                i = i + 1;
            }
            let name_idx = match self.string_constant(name.clone()) {
                Ok(x) => x,
                Err(err) => {
                    return Err(err);
                },
            };
            result.write_op(OpCode::Invoke(name_idx, arguments.len() as u8), line);
            assert(code_extends(k0, start.0) && code_extends(start.0, points.last().0));
        } else {
            {
                let ghost before = *context;
                match self.compile_expr(&**calee, context, result, number) {
                    Ok(_) => {},
                    Err(err) => {
                        proof {
                            lemma_same_shape_trans(*old(context), before, *context);
                        }
                        return Err(err);
                    },
                }
                proof {
                    lemma_same_shape_trans(*old(context), before, *context);
                }
            }
            proof {
                assert forall|k: int| 0 <= k < arguments@.len() implies decreases_to!(*expr => arguments@[k]) by {
                    assert(decreases_to!(*expr => arguments@[k]));
                }
            }
            let ghost start = (result.code@, self.constants@.len());
            let ghost mut points: Seq<(Seq<u8>, nat)> = seq![start];
            let mut i: usize = 0;
            while i < arguments.len()
                invariant
                    0 <= i <= arguments@.len(),
                    points.len() == i + 1,
                    points[0] == start,
                    points.last() == (result.code@, self.constants@.len()),
                    code_extends(start.0, result.code@),
                    forall|k: int|
                        0 <= k < i ==> code_extends(points[k].0, #[trigger] points[k + 1].0)
                            && expr_emits(arguments@[k].node, points[k].0, points[k + 1].0, points[k].1),
                    forall|k: int| 0 <= k < arguments@.len() ==> decreases_to!(*expr => arguments@[k]),
                    self.wf(),
                    self.codemap == old(self).codemap,
                    self.script_closure == old(self).script_closure,
                    result.wf(),
                    code_extends(old(result).code@, result.code@),
                    same_shape(*old(context), *context),
                    forall|t: &str| number.requires((t,)),
                    !pure_expr(expr.node),
                    !(expr.node is This) && !(expr.node is Super),
                decreases arguments@.len() - i,
            {
                {
                    let ghost before = *context;
                    proof {
                        assert(decreases_to!(*expr => arguments@[i as int]));
                    }
                    match self.compile_expr(&arguments[i], context, result, number) {
                        Ok(_) => {},
                        Err(err) => {
                            proof {
                                lemma_same_shape_trans(*old(context), before, *context);
                            }
                            return Err(err);
                        },
                    }
                    proof {
                        lemma_same_shape_trans(*old(context), before, *context);
                        points = points.push((result.code@, self.constants@.len()));
                    }
                }
                i = i + 1;
            }
            result.write_op(OpCode::Call(arguments.len() as u8), line);
            assert(code_extends(k0, start.0) && code_extends(start.0, points.last().0));
        }
            },
            Expression::GetProperty { object, name } => {
            let ghost k0 = result.code@;
            let ghost c0 = self.constants@.len();
            {
                let ghost before = *context;
                match self.compile_expr(&**object, context, result, number) {
                    Ok(_) => {},
                    Err(err) => {
                        proof {
                            lemma_same_shape_trans(*old(context), before, *context);
                        }
                        return Err(err);
                    },
                }
                proof {
                    lemma_same_shape_trans(*old(context), before, *context);
                }
            }
            let ghost m = result.code@;
            let ghost c1 = self.constants@.len();
            let name_const_idx = match self.string_constant(name.clone()) {
                Ok(x) => x,
                Err(err) => {
                    return Err(err);
                },
            };
            let line = self.source_line(expr.span.start);
            result.write_op(OpCode::GetProperty(name_const_idx), line);
            assert(code_extends(k0, (m, c1).0));
            },
            Expression::SetProperty { object, name, value } => {
            let ghost k0 = result.code@;
            let ghost c0 = self.constants@.len();
            {
                let ghost before = *context;
                match self.compile_expr(&**object, context, result, number) {
                    Ok(_) => {},
                    Err(err) => {
                        proof {
                            lemma_same_shape_trans(*old(context), before, *context);
                        }
                        return Err(err);
                    },
                }
                proof {
                    lemma_same_shape_trans(*old(context), before, *context);
                }
            }
            let ghost m = result.code@;
            let ghost c1 = self.constants@.len();
            {
                let ghost before = *context;
                match self.compile_expr(&**value, context, result, number) {
                    Ok(_) => {},
                    Err(err) => {
                        proof {
                            lemma_same_shape_trans(*old(context), before, *context);
                        }
                        return Err(err);
                    },
                }
                proof {
                    lemma_same_shape_trans(*old(context), before, *context);
                }
            }
            let ghost n = result.code@;
            let ghost c2 = self.constants@.len();
            let name_const_idx = match self.string_constant(name.clone()) {
                Ok(x) => x,
                Err(err) => {
                    return Err(err);
                },
            };
            let line = self.source_line(expr.span.start);
            result.write_op(OpCode::SetProperty(name_const_idx), line);
            assert(code_extends(k0, (m, c1).0) && code_extends((m, c1).0, (n, c2).0));
            },
            Expression::This => {
                let line = self.source_line(expr.span.start);
                if !context.in_class() {
                    return Err(
                        single_error(
                            ParseError::UnexpectedToken {
                                span: expr.span,
                                expectation: String::from_str("Can't use 'this' outside of a class."),
                            },
                        ),
                    );
                }
                match self.compile_bound_load("this", line, context, result) {
                    Ok(_) => {},
                    Err(err) => {
                        return Err(err);
                    },
                }
            },
            Expression::Super { method } => {
                let line = self.source_line(expr.span.start);
                if expr.span.start > usize::MAX - 5 {
                    return Err(limit_error());
                }
                let super_span = Span::new(expr.span.start, expr.span.start + 5);
                if !context.in_class() {
                    return Err(single_error(ParseError::SuperOutsideClass { span: super_span }));
                }
                if !context.has_superclass() {
                    return Err(single_error(ParseError::SuperWithoutSuperclass { span: super_span }));
                }
                let ghost c0 = *context;
                let ghost k0 = result.code@;
                match self.compile_bound_load("this", line, context, result) {
                    Ok(_) => {},
                    Err(err) => {
                        return Err(err);
                    },
                }
                let ghost c1 = *context;
                let ghost k1 = result.code@;
                match self.compile_bound_load("super", line, context, result) {
                    Ok(_) => {},
                    Err(err) => {
                        proof {
                            lemma_same_shape_trans(c0, c1, *context);
                        }
                        return Err(err);
                    },
                }
                proof {
                    lemma_same_shape_trans(c0, c1, *context);
                }
                let ghost k2 = result.code@;
                let method_const_idx = match self.string_constant(method.clone()) {
                    Ok(x) => x,
                    Err(err) => {
                        return Err(err);
                    },
                };
                result.write_op(OpCode::GetSuper(method_const_idx), line);
                assert(one_load(k0, k1) && one_load(k1, k2));
            },
        }
        Ok(())
    }

    /// Emits the code of the statement `stmt`.
    pub fn compile_statement<'a, F: Fn(&str) -> u64>(
        &mut self,
        stmt: &'a AstStmt,
        context: &mut LexicalScope<'a>,
        result: &mut ByteCode,
        number: &F,
    ) -> (r: Result<(), VirtualMachineError>)
        requires
            old(self).wf(),
            old(result).wf(),
            forall|t: &str| number.requires((t,)),
        ensures
            errors_listed(r),
            final(self).wf(),
            final(self).codemap == old(self).codemap,
            final(self).script_closure == old(self).script_closure,
            final(result).wf(),
            code_extends(old(result).code@, final(result).code@),
            r is Ok ==> same_shape(*old(context), *final(context)),
            r is Ok ==> stmt_emits(
                stmt.node,
                old(result).code@,
                final(result).code@,
                old(self).constants@.len(),
            ),
            plain_stmt(*stmt, (usize::MAX - old(context).block_depth) as nat) ==> r is Ok,
            stmt.node matches Stmt::Return(ret, value) ==> {
                &&& old(context).block_depth == 0 ==> fails_with(
                    r,
                    ParseError::InvalidTopLevelReturn { span: ret.span },
                )
                &&& old(context).block_depth != 0 && old(context).function_type
                    == FunctionType::Initializer && value is Some ==> fails_with(
                    r,
                    ParseError::InitializerReturnValue { span: ret.span },
                )
                &&& old(context).block_depth != 0 && old(context).function_type
                    == FunctionType::Initializer && value is None ==> r is Ok && final(result).code@
                    == old(result).code@ + spec_encode(OpCode::GetLocal(0)) + spec_encode(
                    OpCode::Ret,
                )
                &&& old(context).block_depth != 0 && old(context).function_type
                    != FunctionType::Initializer && value is None ==> r is Ok && final(result).code@
                    == old(result).code@ + spec_encode(OpCode::Nil) + spec_encode(OpCode::Ret)
                &&& old(context).block_depth != 0 && old(context).function_type
                    != FunctionType::Initializer && (value matches Some(e) && pure_expr(e.node))
                    ==> r is Ok
            },
            stmt.node matches Stmt::Declarations(StmtDeclaration::Variable { ident, expr }) ==> (
            old(context).block_depth != 0 && already_declared(*old(context), ident.node@) && (
            expr matches Some(e) ==> pure_expr(e.node)) ==> redeclared(ident, r) && *final(context)
                == *old(context)),
            stmt.node matches Stmt::Declarations(StmtDeclaration::Function(f)) ==> (already_declared(
                *old(context),
                f.name.node@,
            ) ==> redeclared(f.name, r) && *final(context) == *old(context)),
        decreases stmt, 1nat,
    {
        proof {
            lemma_same_shape_refl(*context);
        }
        match &stmt.node {
            Stmt::Print(expr) => {
                {
                    let ghost before = *context;
                    match self.compile_expr(expr, context, result, number) {
                        Ok(_) => {},
                        Err(err) => {
                            return Err(err);
                        },
                    }
                proof {
                    lemma_same_shape_trans(*old(context), before, *context);
                }
                }
                let line = self.source_line(expr.span.start);
                let ghost pre = result.code@;
                result.write_op(OpCode::Print, line);
                assert(code_extends(old(result).code@, pre));
            },
            Stmt::Expression(expr) => {
                {
                    let ghost before = *context;
                    match self.compile_expr(expr, context, result, number) {
                        Ok(_) => {},
                        Err(err) => {
                            return Err(err);
                        },
                    }
                proof {
                    lemma_same_shape_trans(*old(context), before, *context);
                }
                }
                let line = self.source_line(expr.span.end);
                let ghost pre = result.code@;
                result.write_op(OpCode::Pop, line);
                assert(code_extends(old(result).code@, pre));
            },
            Stmt::Declarations(StmtDeclaration::Function(_)) => {
                return self.compile_function_declaration(stmt, context, result, number);
            },
            Stmt::Declarations(StmtDeclaration::Variable { ident, expr }) => {
                if let Some(e) = expr {
                    {
                        let ghost before = *context;
                        match self.compile_expr(e, context, result, number) {
                            Ok(_) => {},
                            Err(err) => {
                                return Err(err);
                            },
                        }
                    proof {
                        lemma_same_shape_trans(*old(context), before, *context);
                    }
                    }
                } else {
                    let line = self.source_line(ident.span.start);
                    result.write_op(OpCode::Nil, line);
                }
                {
                    let ghost before = *context;
                    match self.compile_declaration_from_stack(ident, context, result) {
                        Ok(_) => {},
                        Err(err) => {
                            return Err(err);
                        },
                    }
                proof {
                    lemma_same_shape_trans(*old(context), before, *context);
                }
                }
            },
            Stmt::Declarations(StmtDeclaration::Class(_)) => {
                return self.compile_class_declaration(stmt, context, result, number);
            },
            Stmt::Block(_) => {
                return self.compile_block(stmt, context, result, number);
            },
            Stmt::If(_) => {
                return self.compile_if(stmt, context, result, number);
            },
            Stmt::While(_) => {
                return self.compile_while(stmt, context, result, number);
            },
            Stmt::For(_) => {
                return self.compile_for(stmt, context, result, number);
            },
            Stmt::Return(ret, value) => {
                if context.is_toplevel() {
                    return Err(single_error(ParseError::InvalidTopLevelReturn { span: ret.span }));
                }
                let line = self.source_line(stmt.span.start);
                if context.function_type() == FunctionType::Initializer {
                    if value.is_some() {
                        return Err(single_error(ParseError::InitializerReturnValue { span: ret.span }));
                    }
                    result.write_op(OpCode::GetLocal(0), line);
                    result.write_op(OpCode::Ret, line);
                } else {
                    if let Some(value) = value {
                        {
                            let ghost before = *context;
                            match self.compile_expr(value, context, result, number) {
                                Ok(_) => {},
                                Err(err) => {
                                    return Err(err);
                                },
                            }
                        proof {
                            lemma_same_shape_trans(*old(context), before, *context);
                        }
                        }
                    } else {
                        result.write_op(OpCode::Nil, line);
                    }
                    let ghost pre = result.code@;
                    result.write_op(OpCode::Ret, line);
                    assert(code_extends(old(result).code@, pre));
                }
            },
        }
        Ok(())
    }

    /// Emits the code of a function declaration: the function is compiled in a scope of its own
    /// and bound to its name.
    fn compile_function_declaration<'a, F: Fn(&str) -> u64>(
        &mut self,
        stmt: &'a AstStmt,
        context: &mut LexicalScope<'a>,
        result: &mut ByteCode,
        number: &F,
    ) -> (r: Result<(), VirtualMachineError>)
        requires
            old(self).wf(),
            old(result).wf(),
            forall|t: &str| number.requires((t,)),
            stmt.node matches Stmt::Declarations(StmtDeclaration::Function(_)),
        ensures
            errors_listed(r),
            r is Ok ==> stmt_emits(
                stmt.node,
                old(result).code@,
                final(result).code@,
                old(self).constants@.len(),
            ),
            final(self).wf(),
            final(self).codemap == old(self).codemap,
            final(self).script_closure == old(self).script_closure,
            final(result).wf(),
            code_extends(old(result).code@, final(result).code@),
            r is Ok ==> same_shape(*old(context), *final(context)),
            stmt.node matches Stmt::Declarations(StmtDeclaration::Function(f)) ==> (already_declared(
                *old(context),
                f.name.node@,
            ) ==> redeclared(f.name, r) && *final(context) == *old(context)),
        decreases stmt, 0nat,
    {
        proof {
            lemma_same_shape_refl(*context);
        }
        match &stmt.node {
            Stmt::Declarations(StmtDeclaration::Function(FunDeclaration { name, params, body })) => {
                if context.is_already_declared(name.node.as_str()) {
                    return Err(redeclaration(name.span));
                }
                let mut byte_code = ByteCode::default();
                let args = param_names(params);
                let ghost outer = *context;
                context.function_decl(name.node.as_str(), args.as_slice());
                let ghost inner0 = *context;
                match self.compile_statement(&**body, context, &mut byte_code, number) {
                    Ok(_) => {},
                    Err(err) => {
                        return Err(err);
                    },
                }
                let ghost inner1 = *context;
                let body_line = self.source_line(body.span.end);
                byte_code.write_op(OpCode::Nil, body_line);
                byte_code.write_op(OpCode::Ret, body_line);
                let upvalue_count = context.upvalues.len();
                if !self.heap_room(name.node.as_str().as_bytes().len()) {
                    return Err(limit_error());
                }
                let fn_name_ref = self.alloc_string(name.node.clone());
                if !self.heap_room(byte_code.code.len()) {
                    return Err(limit_error());
                }
                let function_ref = self.alloc_function(fn_name_ref, params.len(), byte_code, upvalue_count);
                let function_const_idx = self.constants.len() as u16;
                self.constants.push(Value::Object(function_ref));
                let line = self.source_line(name.span.start);
                result.write_op(OpCode::Closure(function_const_idx), line);
                let ghost opened = result.code@;
                let mut u: usize = 0;
                while u < context.upvalues.len()
                    invariant
                        0 <= u <= context.upvalues@.len(),
                        *context == inner1,
                        result.wf(),
                        code_extends(old(result).code@, result.code@),
                        code_extends(opened, result.code@),
                    decreases context.upvalues@.len() - u,
                {
                    context.upvalues[u].1.write_to(result, line);
                    u = u + 1;
                }
                proof {
                    assert(same_shape(inner0, inner1));
                    assert(inner1.parent is Some);
                }
                context.leave_function();
                proof {
                    assert(same_shape(outer, *context));
                    lemma_same_shape_trans(*old(context), outer, *context);
                }
                {
                    let ghost before = *context;
                    match self.compile_declaration_from_stack(name, context, result) {
                        Ok(_) => {},
                        Err(err) => {
                            return Err(err);
                        },
                    }
                proof {
                    lemma_same_shape_trans(*old(context), before, *context);
                }
                }
            },
            _ => {
                unreached()
            },
        }
        Ok(())
    }

    /// Emits the code of a class declaration: the class, its superclass link and its methods.
    fn compile_class_declaration<'a, F: Fn(&str) -> u64>(
        &mut self,
        stmt: &'a AstStmt,
        context: &mut LexicalScope<'a>,
        result: &mut ByteCode,
        number: &F,
    ) -> (r: Result<(), VirtualMachineError>)
        requires
            old(self).wf(),
            old(result).wf(),
            forall|t: &str| number.requires((t,)),
            stmt.node matches Stmt::Declarations(StmtDeclaration::Class(_)),
        ensures
            errors_listed(r),
            r is Ok ==> stmt_emits(
                stmt.node,
                old(result).code@,
                final(result).code@,
                old(self).constants@.len(),
            ),
            final(self).wf(),
            final(self).codemap == old(self).codemap,
            final(self).script_closure == old(self).script_closure,
            final(result).wf(),
            code_extends(old(result).code@, final(result).code@),
            r is Ok ==> same_shape(*old(context), *final(context)),
            stmt.node matches Stmt::Declarations(StmtDeclaration::Class(c)) ==> (!old(self).can_allocate(
                (vstd::layout::size_of::<Obj>() + vstd::utf8::encode_utf8(c.name.node@).len()) as int,
            ) ==> (r matches Err(e) && e is Unhandled)),
            stmt.node matches Stmt::Declarations(StmtDeclaration::Class(c)) ==> (old(self).can_allocate(
                (vstd::layout::size_of::<Obj>() + vstd::utf8::encode_utf8(c.name.node@).len()) as int,
            ) && c.superclass is None && c.methods@.len() == 0 && old(context).block_depth == 0
                ==> r is Ok),
        decreases stmt, 0nat,
    {
        proof {
            lemma_same_shape_refl(*context);
        }
        match &stmt.node {
            Stmt::Declarations(StmtDeclaration::Class(ClassDeclaration { name, methods, superclass })) => {
                let has_superclass = superclass.is_some();
                let name_const_idx = match self.string_constant(name.node.clone()) {
                    Ok(x) => x,
                    Err(err) => {
                        return Err(err);
                    },
                };
                let line = self.source_line(name.span.start);
                result.write_op(OpCode::Class(name_const_idx), line);
                let ghost opened = result.code@;
                {
                    let ghost before = *context;
                    match self.compile_declaration_from_stack(name, context, result) {
                        Ok(_) => {},
                        Err(err) => {
                            return Err(err);
                        },
                    }
                proof {
                    lemma_same_shape_trans(*old(context), before, *context);
                }
                }
                let ghost mut pre_block = *context;
                if let Some(super_ident) = superclass {
                    let super_line = self.source_line(super_ident.span.start);
                    if context.is_toplevel() {
                        let super_name_idx = self.interner.intern_str(super_ident.node.as_str());
                        result.write_op(OpCode::GetGlobal(super_name_idx), super_line);
                    } else {
                        {
                            let ghost before = *context;
                            match self.compile_variable_load(super_ident.node.as_str(), super_line, context, result) {
                                Ok(_) => {},
                                Err(err) => {
                                    return Err(err);
                                },
                            }
                        proof {
                            lemma_same_shape_trans(*old(context), before, *context);
                        }
                        }
                    }
                    let name_line = self.source_line(name.span.start);
                    if context.is_toplevel() {
                        let class_name_idx = self.interner.intern_str(name.node.as_str());
                        result.write_op(OpCode::GetGlobal(class_name_idx), name_line);
                    } else {
                        if !room_for_local(context) {
                            return Err(limit_error());
                        }
                        if let Some(offset) = context.resolve_local(name.node.as_str()) {
                            result.write_op(OpCode::GetLocal(offset as u16), name_line);
                        }
                    }
                    result.write_op(OpCode::Inherit, super_line);
                    if context.block_depth == usize::MAX {
                        return Err(limit_error());
                    }
                    proof {
                        pre_block = *context;
                    }
                    context.enter_block();
                    if !room_for_local(context) {
                        return Err(limit_error());
                    }
                    context.new_local("super");
                }
                let ghost class_scope = *context;
                proof {
                    lemma_same_shape_refl(class_scope);
                    assert(same_shape(*old(context), pre_block));
                    assert(has_superclass ==> opened_block(pre_block, class_scope));
                    assert(!has_superclass ==> class_scope == pre_block);
                }
                let mut m: usize = 0;
                proof {
                    assert forall|k: int| 0 <= k < methods@.len() implies decreases_to!(*stmt => *methods@[k].body) by {
                        assert(decreases_to!(*stmt => *methods@[k].body));
                    }
                }
                while m < methods.len()
                    invariant
                        0 <= m <= methods@.len(),
                        forall|k: int| 0 <= k < methods@.len() ==> decreases_to!(*stmt => *methods@[k].body),
                        self.wf(),
                        self.codemap == old(self).codemap,
                        self.script_closure == old(self).script_closure,
                        result.wf(),
                        code_extends(old(result).code@, result.code@),
                        code_extends(opened, result.code@),
                        stmt.node matches Stmt::Declarations(StmtDeclaration::Class(c)) && c.methods@
                            == methods@ && c.name == *name,
                        old(self).can_allocate(
                            (vstd::layout::size_of::<Obj>() + vstd::utf8::encode_utf8(name.node@).len()) as int,
                        ),
                        same_shape(class_scope, *context),
                        forall|t: &str| number.requires((t,)),
                    decreases methods@.len() - m,
                {
                    let method = &methods[m];
                    let method_line = self.source_line(method.name.span.start);
                    if !room_for_local(context) {
                        return Err(limit_error());
                    }
                    if let Some(offset) = context.resolve_local(name.node.as_str()) {
                        result.write_op(OpCode::GetLocal(offset as u16), method_line);
                    } else {
                        let class_name_idx = self.interner.intern_str(name.node.as_str());
                        result.write_op(OpCode::GetGlobal(class_name_idx), method_line);
                    }
                    let is_init = str_eq(method.name.node.as_str(), "init");
                    let ghost scope_before_method = *context;
                    proof {
                        assert(decreases_to!(*stmt => *method.body));
                    }
                    let mut byte_code = ByteCode::default();
                    let args = param_names(&method.params);
                    let ghost outer = *context;
                    context.method_decl(method.name.node.as_str(), args.as_slice(), is_init, has_superclass);
                    let ghost inner0 = *context;
                    match self.compile_statement(&*method.body, context, &mut byte_code, number) {
                        Ok(_) => {},
                        Err(err) => {
                            return Err(err);
                        },
                    }
                    let ghost inner1 = *context;
                    let body_line = self.source_line(method.body.span.end);
                    if is_init {
                        byte_code.write_op(OpCode::GetLocal(0), body_line);
                    } else {
                        byte_code.write_op(OpCode::Nil, body_line);
                    }
                    byte_code.write_op(OpCode::Ret, body_line);
                    let upvalue_count = context.upvalues.len();
                    if !self.heap_room(method.name.node.as_str().as_bytes().len()) {
                        return Err(limit_error());
                    }
                    let fn_name_ref = self.alloc_string(method.name.node.clone());
                    if !self.heap_room(byte_code.code.len()) {
                        return Err(limit_error());
                    }
                    let function_ref = self.alloc_function(fn_name_ref, method.params.len(), byte_code, upvalue_count);
                    let function_const_idx = self.constants.len() as u16;
                    self.constants.push(Value::Object(function_ref));
                    let line = self.source_line(method.name.span.start);
                    result.write_op(OpCode::Closure(function_const_idx), line);
                    let mut u: usize = 0;
                    while u < context.upvalues.len()
                        invariant
                            0 <= u <= context.upvalues@.len(),
                            *context == inner1,
                            result.wf(),
                            code_extends(old(result).code@, result.code@),
                        code_extends(opened, result.code@),
                        decreases context.upvalues@.len() - u,
                    {
                        context.upvalues[u].1.write_to(result, line);
                        u = u + 1;
                    }
                    proof {
                        assert(same_shape(inner0, inner1));
                        assert(inner1.parent is Some);
                    }
                    context.leave_function();
                    proof {
                        assert(same_shape(outer, *context));
                        lemma_same_shape_trans(class_scope, outer, *context);
                    }
                    let method_name_const_idx = match self.string_constant(method.name.node.clone()) {
                        Ok(x) => x,
                        Err(err) => {
                            return Err(err);
                        },
                    };
                    result.write_op(OpCode::Method(method_name_const_idx), method_line);
                    m = m + 1;
                }
                if superclass.is_some() {
                    let locals = context.iter_locals_in_block_rev();
                    let captured = if locals.len() > 0 {
                        locals[0].1
                    } else {
                        false
                    };
                    let line = self.source_line(name.span.start);
                    if captured {
                        result.write_op(OpCode::CloseUpvalue, line);
                    } else {
                        result.write_op(OpCode::Pop, line);
                    }
                    let ghost inside = *context;
                    context.leave_block();
                    proof {
                        lemma_leave_block_shape(pre_block, class_scope, inside, *context);
                        lemma_same_shape_trans(*old(context), pre_block, *context);
                    }
                } else {
                    proof {
                        lemma_same_shape_trans(*old(context), class_scope, *context);
                    }
                }
            },
            _ => {
                unreached()
            },
        }
        Ok(())
    }

    /// Emits the code of a block, whose locals are dropped at its end.
    fn compile_block<'a, F: Fn(&str) -> u64>(
        &mut self,
        stmt: &'a AstStmt,
        context: &mut LexicalScope<'a>,
        result: &mut ByteCode,
        number: &F,
    ) -> (r: Result<(), VirtualMachineError>)
        requires
            old(self).wf(),
            old(result).wf(),
            forall|t: &str| number.requires((t,)),
            stmt.node matches Stmt::Block(_),
        ensures
            errors_listed(r),
            final(self).wf(),
            final(self).codemap == old(self).codemap,
            final(self).script_closure == old(self).script_closure,
            final(result).wf(),
            code_extends(old(result).code@, final(result).code@),
            r is Ok ==> same_shape(*old(context), *final(context)),
            plain_stmt(*stmt, (usize::MAX - old(context).block_depth) as nat) ==> r is Ok,
            r is Ok ==> stmt_emits(
                stmt.node,
                old(result).code@,
                final(result).code@,
                old(self).constants@.len(),
            ),
        decreases stmt, 0nat,
    {
        proof {
            lemma_same_shape_refl(*context);
        }
        match &stmt.node {
            Stmt::Block(block) => {
                if context.block_depth == usize::MAX {
                    return Err(limit_error());
                }
                context.enter_block();
                let ghost entered = *context;
                assert(opened_block(*old(context), entered));
                proof {
                    lemma_same_shape_refl(entered);
                    assert forall|k: int| 0 <= k < block.0@.len() implies decreases_to!(*stmt => block.0@[k]) by {
                        assert(decreases_to!(*stmt => block.0@[k]));
                    }
                }
                let ghost mut points: Seq<(Seq<u8>, nat)> = seq![(result.code@, self.constants@.len())];
                let mut i: usize = 0;
                while i < block.0.len()
                    invariant
                        0 <= i <= block.0@.len(),
                        points.len() == i + 1,
                        points[0] == (old(result).code@, old(self).constants@.len()),
                        points.last() == (result.code@, self.constants@.len()),
                        forall|k: int|
                            0 <= k < i ==> code_extends(points[k].0, #[trigger] points[k + 1].0)
                                && stmt_emits(block.0@[k].node, points[k].0, points[k + 1].0, points[k].1),
                        forall|k: int| 0 <= k < block.0@.len() ==> decreases_to!(*stmt => block.0@[k]),
                        self.wf(),
                        self.codemap == old(self).codemap,
                        self.script_closure == old(self).script_closure,
                        result.wf(),
                        code_extends(old(result).code@, result.code@),
                        entered.block_depth == old(context).block_depth + 1,
                        plain_stmt(*stmt, (usize::MAX - old(context).block_depth) as nat) ==> forall|k: int|
                            0 <= k < block.0@.len() ==> plain_stmt(
                                #[trigger] block.0@[k],
                                (usize::MAX - entered.block_depth) as nat,
                            ),
                        same_shape(entered, *context),
                        forall|t: &str| number.requires((t,)),
                    decreases block.0@.len() - i,
                {
                    let ghost before = *context;
                    match self.compile_statement(&block.0[i], context, result, number) {
                        Ok(_) => {},
                        Err(err) => {
                            return Err(err);
                        },
                    }
                    proof {
                        lemma_same_shape_trans(entered, before, *context);
                        points = points.push((result.code@, self.constants@.len()));
                    }
                    i = i + 1;
                }
                let ghost last = result.code@;
                let locals = context.iter_locals_in_block_rev();
                let line = self.source_line(stmt.span.end);
                let mut j: usize = 0;
                while j < locals.len()
                    invariant
                        0 <= j <= locals@.len(),
                        result.wf(),
                        code_extends(old(result).code@, result.code@),
                        code_extends(last, result.code@),
                        forall|k: int|
                            last.len() <= k < result.code@.len() ==> #[trigger] result.code@[k]
                                == crate::byte_code::spec_tag(OpCode::Pop) || result.code@[k]
                                == crate::byte_code::spec_tag(OpCode::CloseUpvalue),
                    decreases locals@.len() - j,
                {
                    if locals[j].1 {
                        result.write_op(OpCode::CloseUpvalue, line);
                    } else {
                        result.write_op(OpCode::Pop, line);
                    }
                    j = j + 1;
                }
                assert(code_extends(points.last().0, result.code@));
                let ghost inside = *context;
                context.leave_block();
                proof {
                    lemma_leave_block_shape(*old(context), entered, inside, *context);
                }
            },
            _ => {
                unreached()
            },
        }
        Ok(())
    }

    /// Emits the code of an `if` statement.
    #[verifier::rlimit(100)]
    #[verifier::spinoff_prover]
    fn compile_if<'a, F: Fn(&str) -> u64>(
        &mut self,
        stmt: &'a AstStmt,
        context: &mut LexicalScope<'a>,
        result: &mut ByteCode,
        number: &F,
    ) -> (r: Result<(), VirtualMachineError>)
        requires
            old(self).wf(),
            old(result).wf(),
            forall|t: &str| number.requires((t,)),
            stmt.node matches Stmt::If(_),
        ensures
            errors_listed(r),
            final(self).wf(),
            final(self).codemap == old(self).codemap,
            final(self).script_closure == old(self).script_closure,
            final(result).wf(),
            code_extends(old(result).code@, final(result).code@),
            r is Ok ==> same_shape(*old(context), *final(context)),
            plain_stmt(*stmt, (usize::MAX - old(context).block_depth) as nat) ==> r is Ok,
            r is Ok ==> stmt_emits(
                stmt.node,
                old(result).code@,
                final(result).code@,
                old(self).constants@.len(),
            ),
        decreases stmt, 0nat,
    {
        proof {
            lemma_same_shape_refl(*context);
        }
        match &stmt.node {
            Stmt::If(IfStmt { condition, then_block, else_block }) => {
                {
                    let ghost before = *context;
                    match self.compile_expr(condition, context, result, number) {
                        Ok(_) => {},
                        Err(err) => {
                            return Err(err);
                        },
                    }
                proof {
                    lemma_same_shape_trans(*old(context), before, *context);
                }
                }
                let jump_to_else = self.next_instruction(result);
                let ghost a = result.code@;
                let ghost c1 = self.constants@.len();
                let line = self.source_line(stmt.span.start);
                result.write_op(OpCode::JumpIfFalse(i16::MIN), line);
                result.write_op(OpCode::Pop, line);
                assert(result.code@ == if_entry(a));
                {
                    let ghost before = *context;
                    match self.compile_statement(&**then_block, context, result, number) {
                        Ok(_) => {},
                        Err(err) => {
                            return Err(err);
                        },
                    }
                proof {
                    lemma_same_shape_trans(*old(context), before, *context);
                }
                }
                let jump_after_then = result.size();
                let ghost t = result.code@;
                let ghost c2 = self.constants@.len();
                result.write_op(OpCode::Jump(i16::MIN), line);
                assert(result.code@.len() == jump_after_then + 3);
                proof {
                    lemma_extends_split(if_entry(a), t);
                }
                if let Some(else_block) = else_block {
                    let offset = self.offset_since(jump_to_else, result);
                    let ghost pre = result.code@;
                    self.patch_offset(result, jump_to_else + 1, offset);
                    proof {
                        lemma_patch_keeps_prefix(old(result).code@, pre, (jump_to_else + 1) as int, i16_bytes(offset.0));
                        let rest = t.skip(a.len() + 4int) + spec_encode(OpCode::Jump(i16::MIN));
                        assert(pre =~= a + seq![12u8] + i16_bytes(i16::MIN) + (spec_encode(OpCode::Pop) + rest));
                        lemma_patch_operand(a, 12u8, i16_bytes(i16::MIN), i16_bytes(offset.0), spec_encode(OpCode::Pop) + rest);
                        assert(result.code@ =~= if_head(a, t) + spec_encode(OpCode::Jump(i16::MIN)));
                    }
                    result.write_op(OpCode::Pop, line);
                    assert(result.code@ == if_else_entry(a, t));
                    {
                        let ghost before = *context;
                        match self.compile_statement(&**else_block, context, result, number) {
                            Ok(_) => {},
                            Err(err) => {
                                return Err(err);
                            },
                        }
                    proof {
                        lemma_same_shape_trans(*old(context), before, *context);
                    }
                    }
                    let end = self.next_instruction(result);
                    assert(jump_after_then + 3 <= end);
                    let offset = self.offset_since(jump_after_then, result);
                    let ghost pre = result.code@;
                    self.patch_offset(result, jump_after_then + 1, offset);
                    proof {
                        lemma_patch_keeps_prefix(old(result).code@, pre, (jump_after_then + 1) as int, i16_bytes(offset.0));
                        lemma_extends_split(if_else_entry(a, t), pre);
                        let head = if_head(a, t);
                        assert(head.len() == t.len());
                        assert(pre =~= head + seq![11u8] + i16_bytes(i16::MIN) + pre.skip(t.len() + 3int));
                        lemma_patch_operand(head, 11u8, i16_bytes(i16::MIN), i16_bytes(offset.0), pre.skip(t.len() + 3int));
                        assert(result.code@ =~= head + spec_encode(OpCode::Jump(offset.0)) + pre.skip(t.len() + 3int));
                    }
                    assert(code_extends(old(result).code@, (a, c1).0) && code_extends((a, c1).0, (t, c2).0)
                        && code_extends(if_else_entry((a, c1).0, (t, c2).0), pre));
                } else {
                    let offset = self.offset_since(jump_to_else, result);
                    let ghost pre = result.code@;
                    self.patch_offset(result, jump_to_else + 1, offset);
                    proof {
                        lemma_patch_keeps_prefix(old(result).code@, pre, (jump_to_else + 1) as int, i16_bytes(offset.0));
                        let rest = t.skip(a.len() + 4int) + spec_encode(OpCode::Jump(i16::MIN));
                        assert(pre =~= a + seq![12u8] + i16_bytes(i16::MIN) + (spec_encode(OpCode::Pop) + rest));
                        lemma_patch_operand(a, 12u8, i16_bytes(i16::MIN), i16_bytes(offset.0), spec_encode(OpCode::Pop) + rest);
                        assert(result.code@ =~= if_head(a, t) + spec_encode(OpCode::Jump(i16::MIN)));
                    }
                    let end_line = self.source_line(stmt.span.end);
                    result.write_op(OpCode::Pop, end_line);
                    let end = self.next_instruction(result);
                    assert(jump_after_then + 3 <= end);
                    let offset = self.offset_since(jump_after_then, result);
                    let ghost pre = result.code@;
                    self.patch_offset(result, jump_after_then + 1, offset);
                    proof {
                        lemma_patch_keeps_prefix(old(result).code@, pre, (jump_after_then + 1) as int, i16_bytes(offset.0));
                        let head = if_head(a, t);
                        assert(head.len() == t.len());
                        assert(offset.0 == 4);
                        assert(pre =~= head + seq![11u8] + i16_bytes(i16::MIN) + spec_encode(OpCode::Pop));
                        lemma_patch_operand(head, 11u8, i16_bytes(i16::MIN), i16_bytes(offset.0), spec_encode(OpCode::Pop));
                        assert(result.code@ =~= head + spec_encode(OpCode::Jump(4)) + spec_encode(OpCode::Pop));
                    }
                    assert(code_extends(old(result).code@, (a, c1).0) && code_extends((a, c1).0, t));
                }
            },
            _ => {
                unreached()
            },
        }
        Ok(())
    }

    /// Emits the code of a `while` loop.
    fn compile_while<'a, F: Fn(&str) -> u64>(
        &mut self,
        stmt: &'a AstStmt,
        context: &mut LexicalScope<'a>,
        result: &mut ByteCode,
        number: &F,
    ) -> (r: Result<(), VirtualMachineError>)
        requires
            old(self).wf(),
            old(result).wf(),
            forall|t: &str| number.requires((t,)),
            stmt.node matches Stmt::While(_),
        ensures
            errors_listed(r),
            final(self).wf(),
            final(self).codemap == old(self).codemap,
            final(self).script_closure == old(self).script_closure,
            final(result).wf(),
            code_extends(old(result).code@, final(result).code@),
            r is Ok ==> same_shape(*old(context), *final(context)),
            plain_stmt(*stmt, (usize::MAX - old(context).block_depth) as nat) ==> r is Ok,
            r is Ok ==> stmt_emits(
                stmt.node,
                old(result).code@,
                final(result).code@,
                old(self).constants@.len(),
            ),
        decreases stmt, 0nat,
    {
        proof {
            lemma_same_shape_refl(*context);
        }
        match &stmt.node {
            Stmt::While(WhileStmt { condition, loop_block }) => {
                let start_of_loop = self.next_instruction(result);
                {
                    let ghost before = *context;
                    match self.compile_expr(condition, context, result, number) {
                        Ok(_) => {},
                        Err(err) => {
                            return Err(err);
                        },
                    }
                proof {
                    lemma_same_shape_trans(*old(context), before, *context);
                }
                }
                let jump_out = self.next_instruction(result);
                let ghost a = result.code@;
                let ghost c1 = self.constants@.len();
                let line = self.source_line(condition.span.start);
                result.write_op(OpCode::JumpIfFalse(i16::MAX), line);
                assert(result.code@.len() == jump_out + 3);
                result.write_op(OpCode::Pop, line);
                assert(result.code@ == while_entry(a));
                {
                    let ghost before = *context;
                    match self.compile_statement(&**loop_block, context, result, number) {
                        Ok(_) => {},
                        Err(err) => {
                            return Err(err);
                        },
                    }
                proof {
                    lemma_same_shape_trans(*old(context), before, *context);
                }
                }
                let end_line = self.source_line(loop_block.span.end);
                let ghost body = result.code@;
                proof {
                    lemma_extends_split(while_entry(a), body);
                }
                let back = self.offset_since(start_of_loop, result);
                result.write_op(OpCode::Loop(back.0), end_line);
                result.write_op(OpCode::Pop, end_line);
                let end = self.next_instruction(result);
                assert(jump_out + 3 <= end);
                let offset = self.offset_since(jump_out, result);
                let ghost pre = result.code@;
                self.patch_offset(result, jump_out + 1, offset);
                proof {
                    lemma_patch_keeps_prefix(old(result).code@, pre, (jump_out + 1) as int, i16_bytes(offset.0));
                    let rest = spec_encode(OpCode::Pop) + body.skip(a.len() + 4int) + spec_encode(
                        OpCode::Loop(back.0),
                    ) + spec_encode(OpCode::Pop);
                    assert(pre =~= a + seq![12u8] + i16_bytes(i16::MAX) + rest);
                    lemma_patch_operand(a, 12u8, i16_bytes(i16::MAX), i16_bytes(offset.0), rest);
                    assert(result.code@ =~= a + spec_encode(OpCode::JumpIfFalse(offset.0)) + rest);
                }
                assert(offset.0 == (body.len() + 4 - a.len()) as i16);
                assert(back.0 == (body.len() - old(result).code@.len()) as i16);
                assert(result.code@ == a + spec_encode(
                    OpCode::JumpIfFalse((body.len() + 4 - a.len()) as i16),
                ) + spec_encode(OpCode::Pop) + body.skip(a.len() + 4int) + spec_encode(
                    OpCode::Loop((body.len() - old(result).code@.len()) as i16),
                ) + spec_encode(OpCode::Pop));
                assert(code_extends(old(result).code@, (a, c1).0) && code_extends((a, c1).0, body));
            },
            _ => {
                unreached()
            },
        }
        Ok(())
    }

    /// Emits the code of a `for` loop, whose initializer lives in a block of its own.
    #[verifier::rlimit(50)]
    fn compile_for<'a, F: Fn(&str) -> u64>(
        &mut self,
        stmt: &'a AstStmt,
        context: &mut LexicalScope<'a>,
        result: &mut ByteCode,
        number: &F,
    ) -> (r: Result<(), VirtualMachineError>)
        requires
            old(self).wf(),
            old(result).wf(),
            forall|t: &str| number.requires((t,)),
            stmt.node matches Stmt::For(_),
        ensures
            errors_listed(r),
            final(self).wf(),
            final(self).codemap == old(self).codemap,
            final(self).script_closure == old(self).script_closure,
            final(result).wf(),
            code_extends(old(result).code@, final(result).code@),
            r is Ok ==> same_shape(*old(context), *final(context)),
            plain_stmt(*stmt, (usize::MAX - old(context).block_depth) as nat) ==> r is Ok,
            r is Ok ==> stmt_emits(
                stmt.node,
                old(result).code@,
                final(result).code@,
                old(self).constants@.len(),
            ),
        decreases stmt, 0nat,
    {
        proof {
            lemma_same_shape_refl(*context);
        }
        match &stmt.node {
            Stmt::For(ForStmt { condition, initializer, increment, block }) => {
                if context.block_depth == usize::MAX {
                    return Err(limit_error());
                }
                context.enter_block();
                let ghost entered = *context;
                assert(opened_block(*old(context), entered));
                proof {
                    lemma_same_shape_refl(entered);
                }
                if let Some(initializer) = initializer {
                    let ghost before = *context;
                    match self.compile_statement(&**initializer, context, result, number) {
                        Ok(_) => {},
                        Err(err) => {
                            return Err(err);
                        },
                    }
                    proof {
                        lemma_same_shape_trans(entered, before, *context);
                    }
                }
                let when_loop_starts = self.next_instruction(result);
                let ghost i0 = result.code@;
                let ghost ci = self.constants@.len();
                let mut when_condition_fails: Option<usize> = None;
                let ghost mut ca = i0;
                let ghost mut cc = ci;
                if let Some(condition) = condition {
                    let ghost before = *context;
                    match self.compile_expr(&**condition, context, result, number) {
                        Ok(_) => {},
                        Err(err) => {
                            return Err(err);
                        },
                    }
                    proof {
                        lemma_same_shape_trans(entered, before, *context);
                    }
                    let fails_at = self.next_instruction(result);
                    proof {
                        ca = result.code@;
                        cc = self.constants@.len();
                    }
                    when_condition_fails = Some(fails_at);
                    let line = self.source_line(condition.span.start);
                    result.write_op(OpCode::JumpIfFalse(i16::MAX), line);
                    assert(result.code@.len() == fails_at + 3);
                    result.write_op(OpCode::Pop, line);
                }
                assert(when_condition_fails matches Some(w) ==> w + 3 <= result.code@.len());
                assert(when_condition_fails is Some == condition is Some);
                assert(when_condition_fails matches Some(w) ==> w == ca.len());
                assert(result.code@ == for_entry(condition is Some, ca));
                {
                    let ghost before = *context;
                    match self.compile_statement(&**block, context, result, number) {
                        Ok(_) => {},
                        Err(err) => {
                            return Err(err);
                        },
                    }
                    proof {
                        lemma_same_shape_trans(entered, before, *context);
                    }
                }
                let ghost bb = result.code@;
                let ghost cb = self.constants@.len();
                if let Some(increment) = increment {
                    let ghost before = *context;
                    match self.compile_statement(&**increment, context, result, number) {
                        Ok(_) => {},
                        Err(err) => {
                            return Err(err);
                        },
                    }
                    proof {
                        lemma_same_shape_trans(entered, before, *context);
                    }
                }
                let end_line = self.source_line(block.span.end);
                let ghost inc = result.code@;
                let back = self.offset_since(when_loop_starts, result);
                result.write_op(OpCode::Loop(back.0), end_line);
                if let Some(w) = when_condition_fails {
                    let end = self.next_instruction(result);
                    assert(w + 3 <= end);
                    let offset = self.offset_since(w, result);
                    let ghost pre = result.code@;
                    self.patch_offset(result, w + 1, offset);
                    proof {
                        lemma_patch_keeps_prefix(old(result).code@, pre, (w + 1) as int, i16_bytes(offset.0));
                        lemma_extends_split(for_entry(true, ca), inc);
                        let rest = inc.skip(ca.len() + 3int) + spec_encode(OpCode::Loop(back.0));
                        assert(pre =~= ca + seq![12u8] + i16_bytes(i16::MAX) + rest);
                        lemma_patch_operand(ca, 12u8, i16_bytes(i16::MAX), i16_bytes(offset.0), rest);
                        assert(result.code@ =~= ca + spec_encode(OpCode::JumpIfFalse(offset.0)) + rest);
                    }
                }
                result.write_op(OpCode::Pop, end_line);
                assert(code_extends(old(result).code@, (i0, ci).0) && code_extends((i0, ci).0, (ca, cc).0)
                    && code_extends((ca, cc).0, (bb, cb).0) && code_extends((bb, cb).0, inc));
                assert(result.code@ == (if condition is Some {
                    ca + spec_encode(
                        OpCode::JumpIfFalse((inc.len() + 3 - ca.len()) as i16),
                    ) + inc.skip(ca.len() + 3int)
                } else {
                    inc
                }) + spec_encode(OpCode::Loop((inc.len() - i0.len()) as i16)) + spec_encode(
                    OpCode::Pop,
                ));
                assert(match initializer {
                    Some(s) => stmt_emits(s.node, old(result).code@, i0, old(self).constants@.len()),
                    None => (i0, ci) == (old(result).code@, old(self).constants@.len()),
                });
                assert(match condition {
                    Some(e) => expr_emits(e.node, i0, ca, ci),
                    None => (ca, cc) == (i0, ci),
                });
                assert(stmt_emits(block.node, for_entry(condition is Some, ca), bb, cc));
                assert(match increment {
                    Some(s) => stmt_emits(s.node, bb, inc, cb),
                    None => inc == bb,
                });
                let ghost inside = *context;
                context.leave_block();
                proof {
                    lemma_leave_block_shape(*old(context), entered, inside, *context);
                }
            },
            _ => {
                unreached()
            },
        }
        Ok(())
    }

    /// Compiles the declarations `stmts` of a program, in turn, into the code of a script in the
    /// root scope; the compile errors of all declarations are returned together. Gives the code
    /// and the count of variables the script captures.
    pub fn compile_program<F: Fn(&str) -> u64>(&mut self, stmts: &Vec<AstStmt>, number: &F) -> (r: Result<
        (ByteCode, usize),
        VirtualMachineError,
    >)
        requires
            old(self).wf(),
            forall|t: &str| number.requires((t,)),
        ensures
            final(self).wf(),
            final(self).codemap == old(self).codemap,
            final(self).script_closure == old(self).script_closure,
            match r {
                Ok((code, _)) => code.wf() && program_emits(stmts@, old(self).constants@.len(), code.code@),
                Err(e) => e is Unhandled || (e matches VirtualMachineError::CompileError(es) && es@.len()
                    > 0),
            },
            (forall|k: int| 0 <= k < stmts@.len() ==> #[trigger] plain_stmt(stmts@[k], usize::MAX as nat))
                ==> r is Ok,
    {
        let mut result = ByteCode::default();
        let mut context = LexicalScope::root();
        let mut compile_errors: Vec<ParseError> = Vec::new();
        let ghost mut points: Seq<(Seq<u8>, nat)> = seq![(result.code@, self.constants@.len())];
        let ghost all_plain = forall|k: int|
            0 <= k < stmts@.len() ==> #[trigger] plain_stmt(stmts@[k], usize::MAX as nat);
        let mut i: usize = 0;
        while i < stmts.len()
            invariant
                0 <= i <= stmts@.len(),
                self.wf(),
                result.wf(),
                self.codemap == old(self).codemap,
                self.script_closure == old(self).script_closure,
                forall|t: &str| number.requires((t,)),
                all_plain == forall|k: int|
                    0 <= k < stmts@.len() ==> #[trigger] plain_stmt(stmts@[k], usize::MAX as nat),
                all_plain ==> context.block_depth == 0 && compile_errors@.len() == 0,
                compile_errors@.len() == 0 ==> {
                    &&& points.len() == i + 1
                    &&& points[0] == (Seq::<u8>::empty(), old(self).constants@.len())
                    &&& points.last() == (result.code@, self.constants@.len())
                    &&& forall|k: int|
                        0 <= k < i ==> code_extends(points[k].0, #[trigger] points[k + 1].0)
                            && stmt_emits(stmts@[k].node, points[k].0, points[k + 1].0, points[k].1)
                },
            decreases stmts@.len() - i,
        {
            let ghost before = (result.code@, self.constants@.len());
            match self.compile_statement(&stmts[i], &mut context, &mut result, number) {
                Ok(_) => {},
                Err(VirtualMachineError::CompileError(errors)) => {
                    let mut errors = errors;
                    compile_errors.append(&mut errors);
                },
                Err(e) => {
                    return Err(e);
                },
            }
            proof {
                if compile_errors@.len() == 0 {
                    assert(before == points.last());
                    points = points.push((result.code@, self.constants@.len()));
                }
            }
            i = i + 1;
        }
        if compile_errors.len() > 0 {
            return Err(VirtualMachineError::CompileError(compile_errors));
        }
        assert(points.last() == (result.code@, self.constants@.len()));
        let count = context.upvalues.len();
        Ok((result, count))
    }

    /// Compiles `code` into the script: the program is parsed, its declarations compiled by
    /// `compile_program`, and the script is allocated as a closure over no captured variables.
    /// Parse errors are returned as they are; otherwise the compile errors of all declarations
    /// are returned together. On success the script's code is what the parsed declarations
    /// compile to. `number` gives the value of a number literal.
    pub fn compile<F: Fn(&str) -> u64>(&mut self, code: &str, number: &F) -> (r: Result<
        (),
        VirtualMachineError,
    >)
        requires
            old(self).wf(),
            forall|t: &str| number.requires((t,)),
        ensures
            final(self).wf(),
            final(self).codemap.table() == spec_index_lines(code@),
            final(self).codemap.lines_from_1(),
            !final(self).codemap.positions_from_1(),
            match r {
                Ok(_) => {
                    &&& script_ready(final(self).heap.slots(), final(self).script_closure)
                    &&& closure_code(final(self).heap.slots(), final(self).script_closure->0) is Some
                    &&& exists|stmts: Seq<AstStmt>| #[trigger]
                        program_emits(
                            stmts,
                            old(self).constants@.len(),
                            closure_code(final(self).heap.slots(), final(self).script_closure->0)->0,
                        )
                },
                Err(e) => {
                    &&& final(self).script_closure == old(self).script_closure
                    &&& (e matches VirtualMachineError::CompileError(es) ==> es@.len() > 0)
                    &&& (e is CompileError || e is Unhandled)
                },
            },
    {
        self.codemap = Codemap::new(code);
        let mut parser = Parser::new(code);
        let stmts = parser.parse();
        if parser.had_errors() {
            return Err(VirtualMachineError::CompileError(parser.into_errors()));
        }
        let (result, upvalue_count) = match self.compile_program(&stmts, number) {
            Ok(p) => p,
            Err(e) => {
                return Err(e);
            },
        };
        let script_name = "<script>";
        if !self.heap_room(script_name.as_bytes().len()) {
            return Err(limit_error());
        }
        let name_ref = self.alloc_string(script_name.to_string());
        if !self.heap_room(result.code.len()) {
            return Err(limit_error());
        }
        let ghost code = result.code@;
        assert(program_emits(stmts@, old(self).constants@.len(), code));
        let function_ref = self.alloc_function(name_ref, 0, result, upvalue_count);
        if !self.heap_room(0) {
            return Err(limit_error());
        }
        // On the stack, the function is kept by a collection that the closure's allocation runs.
        self.push(Value::Object(function_ref));
        let ghost before = *self;
        let captured: Vec<GcRef> = Vec::new();
        let ghost stored = Obj {
            is_marked: false,
            kind: ObjKind::Closure(ObjClosure { function: function_ref, upvalues: captured }),
        };
        let closure_ref = self.alloc_closure(function_ref, captured);
        proof {
            assert(before.stack@.last() == Value::Object(function_ref));
            assert(value_refs(before.stack@).contains(function_ref));
            lemma_allocation_keeps_stacked(before, *self, closure_ref, stored, function_ref);
        }
        let _ = self.pop();
        self.script_closure = Some(closure_ref);
        assert(closure_code(self.heap.slots(), closure_ref) == Some(code));
        assert(program_emits(
            stmts@,
            old(self).constants@.len(),
            closure_code(self.heap.slots(), self.script_closure->0)->0,
        ));
        Ok(())
    }
}


/// `code` is what the statements `stmts` compile to, in turn, from empty code, the first with
/// `consts` constants already stored.
pub open spec fn program_emits(stmts: Seq<AstStmt>, consts: nat, code: Seq<u8>) -> bool {
    exists|points: Seq<(Seq<u8>, nat)>|
        #![trigger points.last()]
        {
            &&& points.len() == stmts.len() + 1
            &&& points[0] == (Seq::<u8>::empty(), consts)
            &&& forall|k: int|
                0 <= k < stmts.len() ==> code_extends(points[k].0, #[trigger] points[k + 1].0)
                    && stmt_emits(stmts[k].node, points[k].0, points[k + 1].0, points[k].1)
            &&& points.last().0 == code
        }
}

/// The code of the function of the closure `c`, where `c` is a live closure of a live
/// function.
pub open spec fn closure_code(slots: Seq<Option<Obj>>, c: GcRef) -> Option<Seq<u8>> {
    if live(slots, c.0 as int) && slots[c.0 as int]->0.kind is Closure {
        let f = slots[c.0 as int]->0.kind->Closure_0.function;
        if live(slots, f.0 as int) && slots[f.0 as int]->0.kind is Function {
            Some(slots[f.0 as int]->0.kind->Function_0.code.code@)
        } else {
            None
        }
    } else {
        None
    }
}

/// An allocation, with any collection that comes first, keeps each object on the stack as it
/// was, and stores the new object elsewhere.
proof fn lemma_allocation_keeps_stacked(o: VirtualMachine, n: VirtualMachine, r: GcRef, obj: Obj, g: GcRef)
    requires
        o.wf(),
        n.stored_at(&o, r, obj),
        value_refs(o.stack@).contains(g),
        live(o.heap.slots(), g.0 as int),
    ensures
        n.heap.slots()[g.0 as int] == o.heap.slots()[g.0 as int],
        r != g,
{
    let s = o.heap.slots();
    let c = g.0 as int;
    let m = o.slots_before_alloc();
    assert(!marked(s, c));
    if o.collects() {
        let roots = o.roots();
        assert(o.root_refs().contains(g));
        assert(GcRef(c as u32) == g);
        assert(roots.contains(c));
        assert(reachable_within(s, roots, 0, c));
        assert(reachable(s, roots, c));
    }
    assert(m[c] == s[c]);
}

/// `script` is a closure over no captured variables, stored in `slots`.
pub open spec fn script_ready(slots: Seq<Option<Obj>>, script: Option<GcRef>) -> bool {
    &&& script matches Some(c)
    &&& 0 <= c.0 < slots.len()
    &&& slots[c.0 as int] matches Some(o)
    &&& o.kind matches ObjKind::Closure(cl)
    &&& cl.upvalues@.len() == 0
}

/// `new` begins with `old`: the code was only appended to.
pub open spec fn code_extends(old: Seq<u8>, new: Seq<u8>) -> bool {
    &&& old.len() <= new.len()
    &&& forall|i: int| 0 <= i < old.len() ==> #[trigger] new[i] == old[i]
}

/// `name` is a parameter of the scope's function or a local of its innermost block.
pub open spec fn already_declared<'a>(s: LexicalScope<'a>, name: Seq<char>) -> bool {
    arg_names(s.args@).contains(name) || exists|k: int|
        block_start(s.locals@, s.block_depth as int) <= k < s.locals@.len() && s.locals@[k].0@
            == name
}

/// Compiling failed, if it did, with a list of at least one compile error, or on a limit of
/// the machine.
pub open spec fn errors_listed(r: Result<(), VirtualMachineError>) -> bool {
    r matches Err(e) ==> (e is Unhandled || (e matches VirtualMachineError::CompileError(es)
        && es@.len() > 0))
}

/// Compiling failed with the one error `e`.
pub open spec fn fails_with(r: Result<(), VirtualMachineError>, e: ParseError) -> bool {
    r matches Err(VirtualMachineError::CompileError(es)) && es@ == seq![e]
}

/// The error that `ident` is declared a second time.
pub open spec fn redeclared(ident: AstIdent, r: Result<(), VirtualMachineError>) -> bool {
    r matches Err(VirtualMachineError::CompileError(es)) && es@ == seq![
        ParseError::VariableAlreadyDeclared { span: ident.span },
    ]
}

/// An expression of number, boolean and `nil` literals, arithmetic, comparisons, unary
/// operators and parentheses: compiling one cannot fail.
pub open spec fn pure_expr(node: Expression) -> bool
    decreases node,
{
    match node {
        Expression::Literal(AstLiteral::NilLiteral) => true,
        Expression::Literal(AstLiteral::BoolLiteral(_)) => true,
        Expression::Literal(AstLiteral::NumberLiteral(_)) => true,
        Expression::Multiply { left, right } => pure_expr(left.node) && pure_expr(right.node),
        Expression::Divide { left, right } => pure_expr(left.node) && pure_expr(right.node),
        Expression::Add { left, right } => pure_expr(left.node) && pure_expr(right.node),
        Expression::Subtract { left, right } => pure_expr(left.node) && pure_expr(right.node),
        Expression::UnaryNegation { expr } => pure_expr(expr.node),
        Expression::UnaryNot { expr } => pure_expr(expr.node),
        Expression::Grouping { expr } => pure_expr(expr.node),
        Expression::Logical(LogicalExpression::Greater { left, right }) => pure_expr(left.node)
            && pure_expr(right.node),
        Expression::Logical(LogicalExpression::Less { left, right }) => pure_expr(left.node)
            && pure_expr(right.node),
        Expression::Logical(LogicalExpression::GreaterEqual { left, right }) => pure_expr(
            left.node,
        ) && pure_expr(right.node),
        Expression::Logical(LogicalExpression::LessEqual { left, right }) => pure_expr(left.node)
            && pure_expr(right.node),
        Expression::Logical(LogicalExpression::Equal { left, right }) => pure_expr(left.node)
            && pure_expr(right.node),
        Expression::Logical(LogicalExpression::NotEqual { left, right }) => pure_expr(left.node)
            && pure_expr(right.node),
        _ => false,
    }
}

/// A statement built of `print` and expression statements over pure expressions, blocks,
/// `if`, `while` and `for` (without declarations), whose blocks nest at most `room` deep:
/// compiling one in a scope with `room` blocks left to open cannot fail.
pub open spec fn plain_stmt(s: AstStmt, room: nat) -> bool
    decreases s,
{
    match s.node {
        Stmt::Print(e) => pure_expr(e.node),
        Stmt::Expression(e) => pure_expr(e.node),
        Stmt::Block(crate::parser::BlockStmt(body)) => room >= 1 && forall|i: int|
            0 <= i < body@.len() ==> plain_stmt(#[trigger] body@[i], (room - 1) as nat),
        Stmt::If(i) => {
            &&& pure_expr(i.condition.node)
            &&& plain_stmt(*i.then_block, room)
            &&& (i.else_block matches Some(b) ==> plain_stmt(*b, room))
        },
        Stmt::While(w) => pure_expr(w.condition.node) && plain_stmt(*w.loop_block, room),
        Stmt::For(f) => {
            &&& room >= 1
            &&& (f.initializer matches Some(init) ==> plain_stmt(*init, (room - 1) as nat))
            &&& (f.condition matches Some(c) ==> pure_expr(c.node))
            &&& (f.increment matches Some(inc) ==> plain_stmt(*inc, (room - 1) as nat))
            &&& plain_stmt(*f.block, (room - 1) as nat)
        },
        _ => false,
    }
}

/// The instruction that loads the variable `name` in `scope`: its local slot; else the
/// captured variable it resolves to; else the global variable of that name, by the index
/// interning it among the interned names `names` gives.
pub open spec fn load_instruction<'a>(scope: LexicalScope<'a>, name: Seq<char>, names: Seq<Seq<char>>) -> OpCode {
    match spec_resolve_local(scope, name) {
        Some(k) => OpCode::GetLocal(k as u16),
        None => match spec_resolve_upvalue(scope, name) {
            Some((i, _)) => OpCode::GetUpvalue(i as u16),
            None => OpCode::GetGlobal(StrId { idx: crate::interner::interned(names, name).1 }),
        },
    }
}

/// The store into the variable that the load `load` reads: the same local slot, the same
/// captured variable or the same global.
pub open spec fn store_into(load: OpCode) -> OpCode {
    match load {
        OpCode::GetLocal(k) => OpCode::SetLocal(k),
        OpCode::GetUpvalue(k) => OpCode::SetUpvalue(k),
        OpCode::GetGlobal(g) => OpCode::SetGlobal(g),
        other => other,
    }
}

/// An assignment to `name` stores where a load of `name` reads: into the local slot the name
/// resolves to in `scope`; else into the captured variable it resolves to; else into the
/// global of that name.
pub proof fn lemma_assignment_stores_where_load_reads<'a>(
    scope: LexicalScope<'a>,
    name: Seq<char>,
    names: Seq<Seq<char>>,
)
    ensures
        spec_resolve_local(scope, name) matches Some(k) ==> store_into(
            load_instruction(scope, name, names),
        ) == OpCode::SetLocal(k as u16),
        spec_resolve_local(scope, name) is None ==> (spec_resolve_upvalue(scope, name) matches Some(
            (i, _),
        ) ==> store_into(load_instruction(scope, name, names)) == OpCode::SetUpvalue(i as u16)),
        spec_resolve_local(scope, name) is None && spec_resolve_upvalue(scope, name) is None
            ==> store_into(load_instruction(scope, name, names)) == OpCode::SetGlobal(
            StrId { idx: crate::interner::interned(names, name).1 },
        ),
        load_instruction(scope, name, names) matches OpCode::GetLocal(k) ==> store_into(
            load_instruction(scope, name, names),
        ) == OpCode::SetLocal(k),
        load_instruction(scope, name, names) matches OpCode::GetUpvalue(k) ==> store_into(
            load_instruction(scope, name, names),
        ) == OpCode::SetUpvalue(k),
        load_instruction(scope, name, names) matches OpCode::GetGlobal(g) ==> store_into(
            load_instruction(scope, name, names),
        ) == OpCode::SetGlobal(g),
{
}

/// What compiling the expression `node` appends to the code `old`, giving `new`, where
/// `consts` constants were there before: a literal becomes one instruction (a number or a
/// string the next constant); an arithmetic operator, a comparison or a unary operator the
/// code of its operands, each as this relation says, then its own instructions. Operands
/// are compiled left to right, but for `<` and `>=`, which compile the right operand first;
/// `split` is the code after the first operand with the number of constants there then. A
/// parenthesized expression is its inner expression's code. `and` is its left operand, a jump
/// over the right operand taken when the left is false, and the right operand; `or` its left
/// operand, a jump over the next jump taken when false, a jump over the right operand, and the
/// right operand; each right operand is compiled after the jumps with their distances not yet
/// known. A property read is its object then `GetProperty` of the name's constant, the next
/// one; a property write its object, its value, then `SetProperty` of the name's constant. A
/// call is its callee (calling a property: the property's object), its arguments one after
/// another, then `Call` with their count (`Invoke` of the name's constant, the next one, and
/// the count). A variable is one load of it; an assignment to a variable its value's code,
/// then one store into it. `this` is one load of a local or a captured variable; `super` two
/// such loads (the receiver and the superclass), then `GetSuper` of the method name's constant.
pub open spec fn expr_emits(node: Expression, old: Seq<u8>, new: Seq<u8>, consts: nat) -> bool
    decreases node,
{
    match node {
        Expression::Literal(AstLiteral::NilLiteral) => new == old + spec_encode(OpCode::Nil),
        Expression::Literal(AstLiteral::BoolLiteral(b)) => new == old + spec_encode(
            if b {
                OpCode::True
            } else {
                OpCode::False
            },
        ),
        Expression::Literal(AstLiteral::NumberLiteral(_)) => new == old + spec_encode(
            OpCode::Constant(consts as u16),
        ),
        Expression::Literal(AstLiteral::StringLiteral(_)) => new == old + spec_encode(
            OpCode::Constant(consts as u16),
        ),
        Expression::Multiply { left, right } => exists|split: (Seq<u8>, nat), end: Seq<u8>|
            #![trigger code_extends(old, split.0), code_extends(split.0, end)]
            {
                &&& code_extends(old, split.0) && code_extends(split.0, end)
                &&& expr_emits(left.node, old, split.0, consts)
                &&& expr_emits(right.node, split.0, end, split.1)
                &&& new == end + spec_encode(OpCode::Multiply)
            },
        Expression::Divide { left, right } => exists|split: (Seq<u8>, nat), end: Seq<u8>|
            #![trigger code_extends(old, split.0), code_extends(split.0, end)]
            {
                &&& code_extends(old, split.0) && code_extends(split.0, end)
                &&& expr_emits(left.node, old, split.0, consts)
                &&& expr_emits(right.node, split.0, end, split.1)
                &&& new == end + spec_encode(OpCode::Divide)
            },
        Expression::Add { left, right } => exists|split: (Seq<u8>, nat), end: Seq<u8>|
            #![trigger code_extends(old, split.0), code_extends(split.0, end)]
            {
                &&& code_extends(old, split.0) && code_extends(split.0, end)
                &&& expr_emits(left.node, old, split.0, consts)
                &&& expr_emits(right.node, split.0, end, split.1)
                &&& new == end + spec_encode(OpCode::Add)
            },
        Expression::Subtract { left, right } => exists|split: (Seq<u8>, nat), end: Seq<u8>|
            #![trigger code_extends(old, split.0), code_extends(split.0, end)]
            {
                &&& code_extends(old, split.0) && code_extends(split.0, end)
                &&& expr_emits(left.node, old, split.0, consts)
                &&& expr_emits(right.node, split.0, end, split.1)
                &&& new == end + spec_encode(OpCode::Subtract)
            },
        Expression::UnaryNegation { expr } => exists|end: Seq<u8>|
            #![trigger code_extends(old, end)]
            code_extends(old, end) && expr_emits(expr.node, old, end, consts) && new == end + spec_encode(OpCode::Negate),
        Expression::UnaryNot { expr } => exists|end: Seq<u8>|
            #![trigger code_extends(old, end)]
            code_extends(old, end) && expr_emits(expr.node, old, end, consts) && new == end + spec_encode(OpCode::Not),
        Expression::Grouping { expr } => expr_emits(expr.node, old, new, consts),
        Expression::Logical(LogicalExpression::Greater { left, right }) => exists|split: (Seq<u8>, nat), end: Seq<u8>|
            #![trigger code_extends(old, split.0), code_extends(split.0, end)]
            {
                &&& code_extends(old, split.0) && code_extends(split.0, end)
                &&& expr_emits(left.node, old, split.0, consts)
                &&& expr_emits(right.node, split.0, end, split.1)
                &&& new == end + spec_encode(OpCode::Greater)
            },
        Expression::Logical(LogicalExpression::Less { left, right }) => exists|split: (Seq<u8>, nat), end: Seq<u8>|
            #![trigger code_extends(old, split.0), code_extends(split.0, end)]
            {
                &&& code_extends(old, split.0) && code_extends(split.0, end)
                &&& expr_emits(right.node, old, split.0, consts)
                &&& expr_emits(left.node, split.0, end, split.1)
                &&& new == end + spec_encode(OpCode::Less)
            },
        Expression::Logical(LogicalExpression::GreaterEqual { left, right }) => exists|split: (Seq<u8>, nat), end: Seq<u8>|
            #![trigger code_extends(old, split.0), code_extends(split.0, end)]
            {
                &&& code_extends(old, split.0) && code_extends(split.0, end)
                &&& expr_emits(right.node, old, split.0, consts)
                &&& expr_emits(left.node, split.0, end, split.1)
                &&& new == end + spec_encode(OpCode::Less) + spec_encode(OpCode::Not)
            },
        Expression::Logical(LogicalExpression::LessEqual { left, right }) => exists|split: (Seq<u8>, nat), end: Seq<u8>|
            #![trigger code_extends(old, split.0), code_extends(split.0, end)]
            {
                &&& code_extends(old, split.0) && code_extends(split.0, end)
                &&& expr_emits(left.node, old, split.0, consts)
                &&& expr_emits(right.node, split.0, end, split.1)
                &&& new == end + spec_encode(OpCode::Greater) + spec_encode(OpCode::Not)
            },
        Expression::Logical(LogicalExpression::Equal { left, right }) => exists|split: (Seq<u8>, nat), end: Seq<u8>|
            #![trigger code_extends(old, split.0), code_extends(split.0, end)]
            {
                &&& code_extends(old, split.0) && code_extends(split.0, end)
                &&& expr_emits(left.node, old, split.0, consts)
                &&& expr_emits(right.node, split.0, end, split.1)
                &&& new == end + spec_encode(OpCode::Equal)
            },
        Expression::Logical(LogicalExpression::NotEqual { left, right }) => exists|split: (Seq<u8>, nat), end: Seq<u8>|
            #![trigger code_extends(old, split.0), code_extends(split.0, end)]
            {
                &&& code_extends(old, split.0) && code_extends(split.0, end)
                &&& expr_emits(left.node, old, split.0, consts)
                &&& expr_emits(right.node, split.0, end, split.1)
                &&& new == end + spec_encode(OpCode::Equal) + spec_encode(OpCode::Not)
            },
        Expression::Call { calee, arguments } => exists|
            start: (Seq<u8>, nat),
            points: Seq<(Seq<u8>, nat)>,
        |
            #![trigger code_extends(old, start.0), code_extends(start.0, points.last().0)]
            {
                &&& code_extends(old, start.0) && code_extends(start.0, points.last().0)
                &&& match calee.node {
                    Expression::GetProperty { object, .. } => expr_emits(
                        object.node,
                        old,
                        start.0,
                        consts,
                    ),
                    _ => expr_emits(calee.node, old, start.0, consts),
                }
                &&& points.len() == arguments@.len() + 1
                &&& points[0] == start
                &&& forall|k: int|
                    0 <= k < arguments@.len() ==> code_extends(points[k].0, #[trigger] points[k + 1].0)
                        && expr_emits(arguments@[k].node, points[k].0, points[k + 1].0, points[k].1)
                &&& new == points.last().0 + spec_encode(
                    match calee.node {
                        Expression::GetProperty { .. } => OpCode::Invoke(
                            points.last().1 as u16,
                            arguments@.len() as u8,
                        ),
                        _ => OpCode::Call(arguments@.len() as u8),
                    },
                )
            },
        Expression::GetProperty { object, .. } => exists|split: (Seq<u8>, nat)|
            #![trigger code_extends(old, split.0)]
            {
                &&& code_extends(old, split.0)
                &&& expr_emits(object.node, old, split.0, consts)
                &&& new == split.0 + spec_encode(OpCode::GetProperty(split.1 as u16))
            },
        Expression::SetProperty { object, value, .. } => exists|
            split: (Seq<u8>, nat),
            end: (Seq<u8>, nat),
        |
            #![trigger code_extends(old, split.0), code_extends(split.0, end.0)]
            {
                &&& code_extends(old, split.0) && code_extends(split.0, end.0)
                &&& expr_emits(object.node, old, split.0, consts)
                &&& expr_emits(value.node, split.0, end.0, split.1)
                &&& new == end.0 + spec_encode(OpCode::SetProperty(end.1 as u16))
            },
        Expression::Logical(LogicalExpression::And { left, right }) => exists|
            split: (Seq<u8>, nat),
            end: Seq<u8>,
        |
            #![trigger code_extends(old, split.0), code_extends(split.0, end)]
            {
                &&& code_extends(old, split.0) && code_extends(split.0, end)
                &&& expr_emits(left.node, old, split.0, consts)
                &&& code_extends(split.0 + spec_encode(OpCode::JumpIfFalse(i16::MAX)), end)
                &&& expr_emits(
                    right.node,
                    split.0 + spec_encode(OpCode::JumpIfFalse(i16::MAX)),
                    end,
                    split.1,
                )
                &&& new == split.0 + spec_encode(
                    OpCode::JumpIfFalse((end.len() - split.0.len()) as i16),
                ) + end.skip(split.0.len() + 3int)
            },
        Expression::Logical(LogicalExpression::Or { left, right }) => exists|
            split: (Seq<u8>, nat),
            end: Seq<u8>,
        |
            #![trigger code_extends(old, split.0), code_extends(split.0, end)]
            {
                &&& code_extends(old, split.0) && code_extends(split.0, end)
                &&& expr_emits(left.node, old, split.0, consts)
                &&& code_extends(
                    split.0 + spec_encode(OpCode::JumpIfFalse(6)) + spec_encode(
                        OpCode::Jump(i16::MAX),
                    ),
                    end,
                )
                &&& expr_emits(
                    right.node,
                    split.0 + spec_encode(OpCode::JumpIfFalse(6)) + spec_encode(
                        OpCode::Jump(i16::MAX),
                    ),
                    end,
                    split.1,
                )
                &&& new == split.0 + spec_encode(OpCode::JumpIfFalse(6)) + spec_encode(
                    OpCode::Jump((end.len() - split.0.len() - 3) as i16),
                ) + end.skip(split.0.len() + 6int)
            },
        Expression::Identier(_) => ident_load(old, new),
        Expression::Assignment { lvalue, rvalue } => lvalue.node is Identier ==> exists|end: (Seq<u8>, nat)|
            #![trigger code_extends(old, end.0)]
            code_extends(old, end.0) && expr_emits(rvalue.node, old, end.0, consts) && one_store(end.0, new),
        Expression::This => one_load(old, new),
        Expression::Super { .. } => exists|a: Seq<u8>, b: Seq<u8>|
            #![trigger one_load(old, a), one_load(a, b)]
            one_load(old, a) && one_load(a, b) && new == b + spec_encode(OpCode::GetSuper(consts as u16)),
    }
}

/// `new` is `old` with one load of a variable: a local, a captured variable or a global.
pub open spec fn ident_load(old: Seq<u8>, new: Seq<u8>) -> bool {
    one_load(old, new) || exists|g: StrId|
        #![trigger spec_encode(OpCode::GetGlobal(g))]
        new == old + spec_encode(OpCode::GetGlobal(g))
}

/// `new` is `old` with one store into a variable: a local, a captured variable or a global.
pub open spec fn one_store(old: Seq<u8>, new: Seq<u8>) -> bool {
    (exists|k: u16|
        #![trigger spec_encode(OpCode::SetLocal(k))]
        #![trigger spec_encode(OpCode::SetUpvalue(k))]
        new == old + spec_encode(OpCode::SetLocal(k)) || new == old + spec_encode(OpCode::SetUpvalue(k)))
        || exists|g: StrId|
        #![trigger spec_encode(OpCode::SetGlobal(g))]
        new == old + spec_encode(OpCode::SetGlobal(g))
}

/// `new` is `old` with one load of a local or a captured variable.
pub open spec fn one_load(old: Seq<u8>, new: Seq<u8>) -> bool {
    exists|k: u16|
        #![trigger spec_encode(OpCode::GetLocal(k))]
        #![trigger spec_encode(OpCode::GetUpvalue(k))]
        new == old + spec_encode(OpCode::GetLocal(k)) || new == old + spec_encode(OpCode::GetUpvalue(k))
}

/// Code that begins with `p` is `p` followed by the rest.
proof fn lemma_extends_split(p: Seq<u8>, t: Seq<u8>)
    requires
        code_extends(p, t),
    ensures
        t == p + t.skip(p.len() as int),
{
    assert(t =~= p + t.skip(p.len() as int));
}

/// Writing the two bytes `y` over the operand `x` of the instruction tagged `tag` that
/// follows `pre` gives the instruction with operand `y` in its place.
proof fn lemma_patch_operand(pre: Seq<u8>, tag: u8, x: Seq<u8>, y: Seq<u8>, rest: Seq<u8>)
    requires
        x.len() == 2,
        y.len() == 2,
    ensures
        ({
            let code = pre + seq![tag] + x + rest;
            code.take(pre.len() + 1int) + y + code.skip(pre.len() + 3int)
        }) == pre + seq![tag] + y + rest,
{
    let code = pre + seq![tag] + x + rest;
    assert(code.take(pre.len() + 1int) =~= pre + seq![tag]);
    assert(code.skip(pre.len() + 3int) =~= rest);
}

/// What compiling the statement `node` appends to the code `old`, giving `new`, where
/// `consts` constants were there before: a `print` is the code of its expression then `Print`,
/// an expression statement the code of its expression then `Pop`; a `return` the code of its
/// value (without one: `nil`, or in an initializer the instance) then `Ret`; a variable
/// declaration begins with the code of its initializer (without one: `nil`). An `if` is the
/// code of its condition, a jump past the `then` branch and a `Pop`, the branch, a jump past
/// the `else` part, a `Pop` and the `else` branch; a `while` the code of its condition, a jump
/// out and a `Pop`, the body, a jump back to the condition and a `Pop`. Each branch and body
/// is compiled as this relation says after the code before it, with its jumps' distances not
/// yet known; they are filled in at the end. A block is the code of its statements, one after
/// another, then one `Pop` or `CloseUpvalue` for each of its locals. A `for` loop is its
/// initializer, its condition with a jump out and a `Pop`, its body, its increment, a jump back
/// to the condition and a `Pop`. A function declaration begins with the `Closure` of its
/// function; a class declaration with the `Class` named by the next constant.
pub open spec fn stmt_emits(node: Stmt, old: Seq<u8>, new: Seq<u8>, consts: nat) -> bool
    decreases node,
{
    match node {
        Stmt::Print(e) => exists|end: Seq<u8>|
            #![trigger code_extends(old, end)]
            code_extends(old, end) && expr_emits(e.node, old, end, consts) && new == end
                + spec_encode(OpCode::Print),
        Stmt::Expression(e) => exists|end: Seq<u8>|
            #![trigger code_extends(old, end)]
            code_extends(old, end) && expr_emits(e.node, old, end, consts) && new == end
                + spec_encode(OpCode::Pop),
        Stmt::Return(_, Some(e)) => exists|end: Seq<u8>|
            #![trigger code_extends(old, end)]
            code_extends(old, end) && expr_emits(e.node, old, end, consts) && new == end
                + spec_encode(OpCode::Ret),
        Stmt::Return(_, None) => new == old + spec_encode(OpCode::Nil) + spec_encode(OpCode::Ret)
            || new == old + spec_encode(OpCode::GetLocal(0)) + spec_encode(OpCode::Ret),
        Stmt::Declarations(StmtDeclaration::Variable { expr: Some(e), .. }) => exists|end: Seq<u8>|
            #![trigger code_extends(old, end)]
            code_extends(old, end) && expr_emits(e.node, old, end, consts) && code_extends(
                end,
                new,
            ),
        Stmt::Declarations(StmtDeclaration::Variable { expr: None, .. }) => code_extends(
            old + spec_encode(OpCode::Nil),
            new,
        ),
        Stmt::If(i) => match i.else_block {
            None => exists|cond: (Seq<u8>, nat), then: Seq<u8>|
                #![trigger code_extends(old, cond.0), code_extends(cond.0, then)]
                {
                    &&& code_extends(old, cond.0) && code_extends(cond.0, then)
                    &&& expr_emits(i.condition.node, old, cond.0, consts)
                    &&& code_extends(if_entry(cond.0), then)
                    &&& stmt_emits(i.then_block.node, if_entry(cond.0), then, cond.1)
                    &&& new == if_head(cond.0, then) + spec_encode(OpCode::Jump(4)) + spec_encode(
                        OpCode::Pop,
                    )
                },
            Some(e) => exists|cond: (Seq<u8>, nat), then: (Seq<u8>, nat), end: Seq<u8>|
                #![trigger code_extends(old, cond.0), code_extends(cond.0, then.0), code_extends(if_else_entry(cond.0, then.0), end)]
                {
                    &&& code_extends(old, cond.0) && code_extends(cond.0, then.0)
                    &&& expr_emits(i.condition.node, old, cond.0, consts)
                    &&& code_extends(if_entry(cond.0), then.0)
                    &&& stmt_emits(i.then_block.node, if_entry(cond.0), then.0, cond.1)
                    &&& code_extends(if_else_entry(cond.0, then.0), end)
                    &&& stmt_emits(e.node, if_else_entry(cond.0, then.0), end, then.1)
                    &&& new == if_head(cond.0, then.0) + spec_encode(
                        OpCode::Jump((end.len() - then.0.len()) as i16),
                    ) + end.skip(then.0.len() + 3int)
                },
        },
        Stmt::Block(crate::parser::BlockStmt(body)) => exists|points: Seq<(Seq<u8>, nat)>|
            #![trigger code_extends(points.last().0, new)]
            {
                &&& points.len() == body@.len() + 1
                &&& points[0] == (old, consts)
                &&& forall|k: int|
                    0 <= k < body@.len() ==> code_extends(points[k].0, #[trigger] points[k + 1].0)
                        && stmt_emits(body@[k].node, points[k].0, points[k + 1].0, points[k].1)
                &&& code_extends(points.last().0, new)
                &&& forall|j: int|
                    points.last().0.len() <= j < new.len() ==> #[trigger] new[j] == crate::byte_code::spec_tag(
                        OpCode::Pop,
                    ) || new[j] == crate::byte_code::spec_tag(OpCode::CloseUpvalue)
            },
        Stmt::For(f) => exists|
            init: (Seq<u8>, nat),
            cond: (Seq<u8>, nat),
            body: (Seq<u8>, nat),
            inc: Seq<u8>,
        |
            #![trigger code_extends(old, init.0), code_extends(init.0, cond.0), code_extends(cond.0, body.0), code_extends(body.0, inc)]
            {
                &&& code_extends(old, init.0) && code_extends(init.0, cond.0)
                &&& code_extends(cond.0, body.0) && code_extends(body.0, inc)
                &&& match f.initializer {
                    Some(s) => stmt_emits(s.node, old, init.0, consts),
                    None => init == (old, consts),
                }
                &&& match f.condition {
                    Some(e) => expr_emits(e.node, init.0, cond.0, init.1),
                    None => cond == init,
                }
                &&& code_extends(for_entry(f.condition is Some, cond.0), body.0)
                &&& stmt_emits(f.block.node, for_entry(f.condition is Some, cond.0), body.0, cond.1)
                &&& match f.increment {
                    Some(s) => stmt_emits(s.node, body.0, inc, body.1),
                    None => inc == body.0,
                }
                &&& new == (if f.condition is Some {
                    cond.0 + spec_encode(
                        OpCode::JumpIfFalse((inc.len() + 3 - cond.0.len()) as i16),
                    ) + inc.skip(cond.0.len() + 3int)
                } else {
                    inc
                }) + spec_encode(OpCode::Loop((inc.len() - init.0.len()) as i16)) + spec_encode(
                    OpCode::Pop,
                )
            },
        Stmt::While(w) => exists|cond: (Seq<u8>, nat), body: Seq<u8>|
            #![trigger code_extends(old, cond.0), code_extends(cond.0, body)]
            {
                &&& code_extends(old, cond.0) && code_extends(cond.0, body)
                &&& expr_emits(w.condition.node, old, cond.0, consts)
                &&& code_extends(while_entry(cond.0), body)
                &&& stmt_emits(w.loop_block.node, while_entry(cond.0), body, cond.1)
                &&& new == cond.0 + spec_encode(
                    OpCode::JumpIfFalse((body.len() + 4 - cond.0.len()) as i16),
                ) + spec_encode(OpCode::Pop) + body.skip(cond.0.len() + 4int) + spec_encode(
                    OpCode::Loop((body.len() - old.len()) as i16),
                ) + spec_encode(OpCode::Pop)
            },
        Stmt::Declarations(StmtDeclaration::Function(_)) => exists|idx: u16|
            #![trigger spec_encode(OpCode::Closure(idx))]
            code_extends(old + spec_encode(OpCode::Closure(idx)), new),
        Stmt::Declarations(StmtDeclaration::Class(_)) => code_extends(
            old + spec_encode(OpCode::Class(consts as u16)),
            new,
        ),
    }
}

/// The code before the `then` branch of an `if` whose condition's code ends `cond`: the jump
/// past the branch, its distance not yet known, and the `Pop` of the condition.
pub open spec fn if_entry(cond: Seq<u8>) -> Seq<u8> {
    cond + spec_encode(OpCode::JumpIfFalse(i16::MIN)) + spec_encode(OpCode::Pop)
}

/// The code of an `if` up to its jump past the `else` part, where the condition's code ends
/// `cond` and the `then` branch's code ends `then`: the jump over the branch and the next
/// jump goes to the instruction after that jump.
pub open spec fn if_head(cond: Seq<u8>, then: Seq<u8>) -> Seq<u8> {
    cond + spec_encode(OpCode::JumpIfFalse((then.len() + 3 - cond.len()) as i16)) + spec_encode(
        OpCode::Pop,
    ) + then.skip(cond.len() + 4int)
}

/// The code before the `else` branch: the head, the jump past the branch, its distance not yet
/// known, and the `Pop` of the condition.
pub open spec fn if_else_entry(cond: Seq<u8>, then: Seq<u8>) -> Seq<u8> {
    if_head(cond, then) + spec_encode(OpCode::Jump(i16::MIN)) + spec_encode(OpCode::Pop)
}

/// The code before the body of a `for` loop whose condition's code, if it has one, ends
/// `cond`: with a condition, the jump out of the loop, its distance not yet known, and the
/// `Pop` of the condition.
pub open spec fn for_entry(has_condition: bool, cond: Seq<u8>) -> Seq<u8> {
    if has_condition {
        cond + spec_encode(OpCode::JumpIfFalse(i16::MAX)) + spec_encode(OpCode::Pop)
    } else {
        cond
    }
}

/// The code before the body of a `while` whose condition's code ends `cond`: the jump out of
/// the loop, its distance not yet known, and the `Pop` of the condition.
pub open spec fn while_entry(cond: Seq<u8>) -> Seq<u8> {
    cond + spec_encode(OpCode::JumpIfFalse(i16::MAX)) + spec_encode(OpCode::Pop)
}

/// Patching two bytes at or after the end of `old` keeps the code beginning with `old`.
proof fn lemma_patch_keeps_prefix(old: Seq<u8>, mid: Seq<u8>, addr: int, bytes: Seq<u8>)
    requires
        code_extends(old, mid),
        old.len() <= addr,
        addr + 2 <= mid.len(),
        bytes.len() == 2,
    ensures
        code_extends(old, mid.take(addr) + bytes + mid.skip(addr + 2)),
{
    let n = mid.take(addr) + bytes + mid.skip(addr + 2);
    assert forall|i: int| 0 <= i < old.len() implies #[trigger] n[i] == old[i] by {
        assert(n[i] == mid[i]);
    }
}

/// The names of the parameters, in order.
fn param_names<'a>(params: &'a Vec<AstIdent>) -> (r: Vec<&'a str>)
    ensures
        r@.len() == params@.len(),
{
    let mut r: Vec<&'a str> = Vec::new();
    let mut i: usize = 0;
    while i < params.len()
        invariant
            0 <= i <= params@.len(),
            r@.len() == i,
        decreases params@.len() - i,
    {
        r.push(params[i].node.as_str());
        i = i + 1;
    }
    r
}

/// Two chains of scopes nest alike: the same block depths, function kinds, class contexts
/// and argument counts, level by level.
pub open spec fn same_shape<'a>(o: LexicalScope<'a>, n: LexicalScope<'a>) -> bool
    decreases o,
{
    &&& o.block_depth == n.block_depth
    &&& o.function_type == n.function_type
    &&& o.enclosing_class == n.enclosing_class
    &&& o.args@.len() == n.args@.len()
    &&& match o.parent {
        Some(op) => match n.parent {
            Some(np) => same_shape(*op, *np),
            None => false,
        },
        None => n.parent is None,
    }
}

/// Every chain of scopes nests like itself.
pub proof fn lemma_same_shape_refl<'a>(s: LexicalScope<'a>)
    ensures
        same_shape(s, s),
    decreases s,
{
    if let Some(p) = s.parent {
        lemma_same_shape_refl(*p);
    }
}

/// Nesting alike is transitive.
pub proof fn lemma_same_shape_trans<'a>(a: LexicalScope<'a>, b: LexicalScope<'a>, c: LexicalScope<'a>)
    requires
        same_shape(a, b),
        same_shape(b, c),
    ensures
        same_shape(a, c),
    decreases a,
{
    if let Some(ap) = a.parent {
        let bp = b.parent->0;
        let cp = c.parent->0;
        lemma_same_shape_trans(*ap, *bp, *cp);
    }
}

/// `n` is `o` with one more block open (its locals aside).
pub open spec fn opened_block<'a>(o: LexicalScope<'a>, n: LexicalScope<'a>) -> bool {
    &&& n.block_depth == o.block_depth + 1
    &&& n.parent == o.parent
    &&& n.function_type == o.function_type
    &&& n.enclosing_class == o.enclosing_class
    &&& n.args == o.args
}

/// Opening a block in `o`, compiling in it (from `e` to `i`) and closing it again (giving
/// `f`) leaves the shape of `o`.
proof fn lemma_leave_block_shape<'a>(
    o: LexicalScope<'a>,
    e: LexicalScope<'a>,
    i: LexicalScope<'a>,
    f: LexicalScope<'a>,
)
    requires
        opened_block(o, e),
        same_shape(e, i),
        f.block_depth + 1 == i.block_depth,
        f.parent == i.parent,
        f.function_type == i.function_type,
        f.enclosing_class == i.enclosing_class,
        f.args == i.args,
    ensures
        same_shape(o, f),
{
}

/// Resolving a captured variable changes no scope's shape.
pub proof fn lemma_resolve_keeps_shape<'a>(o: LexicalScope<'a>, n: LexicalScope<'a>, name: &'a str)
    requires
        spec_resolve_step(o, n, name),
    ensures
        same_shape(o, n),
    decreases o,
{
    lemma_same_shape_refl(o);
    match first_index_of(upvalue_names(o.upvalues@), name@) {
        Some(_) => {},
        None => match o.parent {
            None => {},
            Some(op) => {
                let np = n.parent->0;
                match spec_resolve_local(*op, name@) {
                    Some(_) => {
                        lemma_same_shape_refl(*op);
                        if let Some(pp) = op.parent {
                            lemma_same_shape_refl(*pp);
                        }
                        assert(spec_capture(*op, *np, name@));
                        match first_index_of(arg_names(op.args@), name@) {
                            Some(i) => {
                                lemma_first_index_of(arg_names(op.args@), name@);
                                assert(np.args@ == op.args@.update(i, (op.args@[i].0, true)));
                            },
                            None => {
                                assert(np.args == op.args);
                            },
                        }
                        assert(np.args@.len() == op.args@.len());
                        assert(np.parent == op.parent);
                        assert(same_shape(*op, *np));
                    },
                    None => match spec_resolve_upvalue(*op, name@) {
                        Some(_) => {
                            lemma_resolve_keeps_shape(*op, *np, name);
                        },
                        None => {},
                    },
                }
            },
        },
    }
}

/// Whether every scope of the chain has room for its slots.
fn scope_fits<'a>(s: &LexicalScope<'a>) -> (b: bool)
    ensures
        b == slots_fit(*s),
    decreases *s,
{
    let here = s.args.len() < usize::MAX && s.locals.len() < usize::MAX - s.args.len();
    if !here {
        return false;
    }
    match &s.parent {
        Some(p) => scope_fits(p),
        None => true,
    }
}

/// The compile error made of the one error `e`.
fn single_error(e: ParseError) -> (r: VirtualMachineError)
    ensures
        r matches VirtualMachineError::CompileError(es) && es@ == seq![e],
{
    let mut es: Vec<ParseError> = Vec::new();
    es.push(e);
    VirtualMachineError::CompileError(es)
}

/// The error that a variable spanning `span` is declared a second time in its scope.
fn redeclaration(span: Span) -> (r: VirtualMachineError)
    ensures
        r matches VirtualMachineError::CompileError(es) && es@ == seq![
            ParseError::VariableAlreadyDeclared { span },
        ],
{
    let mut es: Vec<ParseError> = Vec::new();
    es.push(ParseError::VariableAlreadyDeclared { span });
    VirtualMachineError::CompileError(es)
}

/// Whether the scope has room for one more local.
fn room_for_local<'a>(s: &LexicalScope<'a>) -> (b: bool)
    ensures
        b == (s.args@.len() + s.locals@.len() + 2 < usize::MAX),
{
    s.args.len() < usize::MAX - 2 && s.locals.len() < usize::MAX - 2 - s.args.len()
}

/// The error for a program that needs more than the machine can count: more heap bytes,
/// references, slots or nested blocks than fit in its integers.
pub(crate) fn limit_error() -> (r: VirtualMachineError)
    ensures
        r is Unhandled,
{
    VirtualMachineError::Unhandled(String::from_str("program exceeds the limits of the machine"))
}

/// A collection keeps exactly the objects that the machine's roots reach, each as it was but
/// unmarked, and frees every other object.
pub proof fn lemma_collection_keeps_exactly_reachable(before: &VirtualMachine, after: &VirtualMachine, i: int)
    requires
        after.collection_of(before),
        0 <= i < before.heap.slots().len(),
    ensures
        after.heap.slots().len() == before.heap.slots().len(),
        live(after.heap.slots(), i) <==> (live(before.heap.slots(), i) && reachable(
            before.heap.slots(),
            before.roots(),
            i,
        )),
        live(after.heap.slots(), i) ==> after.heap.slots()[i] == Some(
            Obj { is_marked: false, kind: before.heap.slots()[i]->0.kind },
        ),
{
    let marks = with_reachable_marks(before.heap.slots(), before.roots());
    crate::gc::lemma_sweep_keeps_marked(marks, i);
}

/// An object that a root refers to survives every collection.
pub proof fn lemma_roots_survive(before: &VirtualMachine, after: &VirtualMachine, r: GcRef)
    requires
        after.collection_of(before),
        before.root_refs().contains(r),
        live(before.heap.slots(), r.0 as int),
    ensures
        live(after.heap.slots(), r.0 as int),
        after.heap.slots()[r.0 as int]->0.kind == before.heap.slots()[r.0 as int]->0.kind,
{
    assert(GcRef(r.0 as int as u32) == r);
    assert(before.roots().contains(r.0 as int));
    assert(reachable_within(before.heap.slots(), before.roots(), 0, r.0 as int));
    lemma_collection_keeps_exactly_reachable(before, after, r.0 as int);
}

/// Strings are interned: right after a string is stored, storing a string with the same text
/// gives the same object, unless a collection comes first.
pub proof fn lemma_string_stored_twice(before: &VirtualMachine, after: &VirtualMachine, s: String, r: GcRef)
    requires
        after.string_stored(before, s, r),
        !after.collects(),
    ensures
        after.interned_string_for(s@) == Some(r),
{
}

/// Allocating a string twice with the same text gives the same object both times, unless a
/// collection comes between.
pub proof fn lemma_string_allocated_twice(
    before: &VirtualMachine,
    mid: &VirtualMachine,
    after: &VirtualMachine,
    s: String,
    t: String,
    r1: GcRef,
    r2: GcRef,
)
    requires
        mid.string_stored(before, s, r1),
        !mid.collects(),
        after.string_stored(mid, t, r2),
        t@ == s@,
    ensures
        r2 == r1,
{
    lemma_string_stored_twice(before, mid, s, r1);
}

/// A collection keeps the function that each call frame runs: the frame's closure is a root
/// and the closure refers to its function.
pub proof fn lemma_collection_keeps_frames(before: &VirtualMachine, after: &VirtualMachine, k: int)
    requires
        after.collection_of(before),
        0 <= k < before.frames@.len(),
        before.frame_function(before.frames@[k]) is Some,
    ensures
        after.frames@[k] == before.frames@[k],
        after.frame_function(after.frames@[k]) == before.frame_function(before.frames@[k]),
{
    let f = before.frames@[k];
    let s = before.heap.slots();
    let c = f.closure;
    assert(before.root_refs().contains(c));
    lemma_roots_survive(before, after, c);
    let cl = s[c.0 as int]->0.kind->Closure_0;
    let fi = cl.function.0 as int;
    assert(spec_refs(s[c.0 as int]->0.kind).contains(cl.function));
    assert(GcRef(fi as u32) == cl.function);
    assert(points_to(s, c.0 as int, fi));
    assert(GcRef(c.0 as int as u32) == c);
    assert(before.roots().contains(c.0 as int));
    assert(reachable_within(s, before.roots(), 0, c.0 as int));
    crate::gc::lemma_reachable_step(s, before.roots(), 0, c.0 as int, fi);
    assert(reachable(s, before.roots(), fi));
    lemma_collection_keeps_exactly_reachable(before, after, fi);
}

} // verus!
