//! The symbol table.
//!
//! A context maps names to symbols: a variable with its value, a function
//! with its arity and body, or an argument slot with its position.  The
//! parser consults it to disambiguate identifiers, and the evaluator
//! mutates it through assignments and function definitions.
//!
//! A symbol keeps its kind: writing a variable's value through
//! `update_var`, or a function through `update_func`, leaves a name of a
//! different kind untouched.  Unknown names are permissive: `is_var` and
//! `is_func` both answer `true` for a name the table does not hold, so a
//! fresh name may be assigned to or defined.

use vstd::prelude::*;

use std::rc::Rc;

use crate::num::Num;
use crate::parser::Ast;
use crate::parser::AstV;
use crate::parser::Function;
use crate::parser::ast_view;
use crate::parser::rc_dup;
use crate::parser::str_eq;

verus! {

/// What a name is bound to.
pub enum Symbol {
    /// A variable and its current value.
    Variable(Num),
    /// A function: its arity and its body.
    Function(usize, Rc<Ast>),
    /// An argument slot of a function body, by position.
    Argument(usize),
}

/// The mathematical shape of a symbol.
pub enum SymbolV {
    Variable(Num),
    Function(int, AstV),
    Argument(int),
}

impl View for Symbol {
    type V = SymbolV;

    open spec fn view(&self) -> SymbolV {
        match self {
            Symbol::Variable(n) => SymbolV::Variable(*n),
            Symbol::Function(arity, body) => SymbolV::Function(*arity as int, ast_view(**body)),
            Symbol::Argument(idx) => SymbolV::Argument(*idx as int),
        }
    }
}

/// The map an entry list stands for; later entries would win, but the
/// table keeps its keys unique.
pub(crate) open spec fn assoc_map(s: Seq<(String, Symbol)>) -> Map<Seq<char>, SymbolV>
    decreases s.len(),
{
    if s.len() == 0 {
        Map::empty()
    } else {
        assoc_map(s.drop_last()).insert(s.last().0@, s.last().1@)
    }
}

/// Entry keys are pairwise distinct.
pub(crate) open spec fn entries_wf(s: Seq<(String, Symbol)>) -> bool {
    forall|i: int, j: int| 0 <= i < j < s.len() ==> (#[trigger] s[i]).0@ != (#[trigger] s[j]).0@
}

/// A key is in the map exactly when some entry carries it.
proof fn lemma_assoc_contains(s: Seq<(String, Symbol)>, key: Seq<char>)
    ensures
        assoc_map(s).contains_key(key) <==> exists|i: int|
            0 <= i < s.len() && (#[trigger] s[i]).0@ == key,
    decreases s.len(),
{
    if s.len() > 0 {
        let s0 = s.drop_last();
        lemma_assoc_contains(s0, key);
        if s.last().0@ == key {
            assert(s[s.len() - 1].0@ == key);
        } else {
            if assoc_map(s).contains_key(key) {
                let i = choose|i: int| 0 <= i < s0.len() && (#[trigger] s0[i]).0@ == key;
                assert(s[i].0@ == key);
            }
            if exists|i: int| 0 <= i < s.len() && (#[trigger] s[i]).0@ == key {
                let i = choose|i: int| 0 <= i < s.len() && (#[trigger] s[i]).0@ == key;
                assert(i < s.len() - 1);
                assert(s0[i].0@ == key);
            }
        }
    }
}

/// With unique keys, the map holds each entry's symbol under its name.
proof fn lemma_assoc_value(s: Seq<(String, Symbol)>, i: int)
    requires
        entries_wf(s),
        0 <= i < s.len(),
    ensures
        assoc_map(s).contains_key(s[i].0@),
        assoc_map(s)[s[i].0@] == s[i].1@,
    decreases s.len(),
{
    if i == s.len() - 1 {
    } else {
        let s0 = s.drop_last();
        assert(s0[i] == s[i]);
        lemma_assoc_value(s0, i);
        assert(s.last().0@ != s[i].0@);
    }
}

/// Appending an entry inserts its binding.
proof fn lemma_assoc_push(s: Seq<(String, Symbol)>, p: (String, Symbol))
    ensures
        assoc_map(s.push(p)) == assoc_map(s).insert(p.0@, p.1@),
{
    assert(s.push(p).drop_last() =~= s);
    assert(s.push(p).last() == p);
}

/// Replacing an entry under the same name inserts the new binding.
proof fn lemma_assoc_update(s: Seq<(String, Symbol)>, i: int, p: (String, Symbol))
    requires
        entries_wf(s),
        0 <= i < s.len(),
        s[i].0@ == p.0@,
    ensures
        assoc_map(s.update(i, p)) == assoc_map(s).insert(p.0@, p.1@),
    decreases s.len(),
{
    let t = s.update(i, p);
    if i == s.len() - 1 {
        assert(t.drop_last() =~= s.drop_last());
        assert(t.last() == p);
        assert(assoc_map(s.drop_last()).insert(s.last().0@, s.last().1@).insert(p.0@, p.1@)
            =~= assoc_map(s.drop_last()).insert(p.0@, p.1@));
    } else {
        assert(t.drop_last() =~= s.drop_last().update(i, p));
        assert(t.last() == s.last());
        assert(s.drop_last()[i] == s[i]);
        lemma_assoc_update(s.drop_last(), i, p);
        assert(s.last().0@ != p.0@);
        assert(assoc_map(s.drop_last()).insert(p.0@, p.1@).insert(s.last().0@, s.last().1@)
            =~= assoc_map(s.drop_last()).insert(s.last().0@, s.last().1@).insert(p.0@, p.1@));
    }
}

/// The symbol table: a mapping from names to symbols with unique keys.
pub struct Context {
    symbols: Vec<(String, Symbol)>,
}

impl View for Context {
    type V = Map<Seq<char>, SymbolV>;

    closed spec fn view(&self) -> Map<Seq<char>, SymbolV> {
        assoc_map(self.symbols@)
    }
}

/// Whether a name may be assigned to: unknown, or already a variable.
pub open spec fn spec_is_var(m: Map<Seq<char>, SymbolV>, name: Seq<char>) -> bool {
    !m.contains_key(name) || m[name] is Variable
}

/// Whether a name may be called or defined: unknown, or already a
/// function.
pub open spec fn spec_is_func(m: Map<Seq<char>, SymbolV>, name: Seq<char>) -> bool {
    !m.contains_key(name) || m[name] is Function
}

/// What writing a variable does: bind the name to the value, unless the
/// name is already bound to a symbol of another kind, which stays.
pub open spec fn spec_update_var(m: Map<Seq<char>, SymbolV>, name: Seq<char>, val: Num) -> Map<
    Seq<char>,
    SymbolV,
> {
    if spec_is_var(m, name) {
        m.insert(name, SymbolV::Variable(val))
    } else {
        m
    }
}

/// What registering a function does: bind the name to the arity and body,
/// unless the name is already bound to a symbol of another kind, which
/// stays.
pub open spec fn spec_update_func(
    m: Map<Seq<char>, SymbolV>,
    name: Seq<char>,
    arity: int,
    body: AstV,
) -> Map<Seq<char>, SymbolV> {
    if spec_is_func(m, name) {
        m.insert(name, SymbolV::Function(arity, body))
    } else {
        m
    }
}

/// The function bindings of a map, and nothing else.
pub open spec fn funcs_of(m: Map<Seq<char>, SymbolV>) -> Map<Seq<char>, SymbolV> {
    Map::new(|k: Seq<char>| m.contains_key(k) && m[k] is Function, |k: Seq<char>| m[k])
}

/// Argument bindings laid over a map: the first `upto` names bound to
/// their positions, a later position winning a repeated name.
pub open spec fn with_args(
    m: Map<Seq<char>, SymbolV>,
    names: Seq<Seq<char>>,
    upto: int,
) -> Map<Seq<char>, SymbolV>
    decreases upto,
{
    if upto <= 0 {
        m
    } else {
        with_args(m, names, upto - 1).insert(names[upto - 1], SymbolV::Argument(upto - 1))
    }
}

/// Names not among the arguments pass through the argument layer
/// untouched.
proof fn lemma_with_args_frame(
    m: Map<Seq<char>, SymbolV>,
    names: Seq<Seq<char>>,
    upto: int,
    k: Seq<char>,
)
    requires
        forall|i: int| 0 <= i < upto ==> names[i] != k,
    ensures
        with_args(m, names, upto).contains_key(k) == m.contains_key(k),
        m.contains_key(k) ==> with_args(m, names, upto)[k] == m[k],
    decreases upto,
{
    if upto > 0 {
        lemma_with_args_frame(m, names, upto - 1, k);
    }
}

/// The last occurrence of a name among the arguments decides its slot.
proof fn lemma_with_args_at(
    m: Map<Seq<char>, SymbolV>,
    names: Seq<Seq<char>>,
    upto: int,
    i: int,
)
    requires
        0 <= i < upto,
        forall|j: int| i < j < upto ==> names[j] != names[i],
    ensures
        with_args(m, names, upto).contains_key(names[i]),
        with_args(m, names, upto)[names[i]] == SymbolV::Argument(i),
    decreases upto,
{
    if i == upto - 1 {
    } else {
        lemma_with_args_at(m, names, upto - 1, i);
    }
}

/// Law: a function body's context hides the caller's variables.  A name
/// the parent binds as a variable is absent from the child unless it is a
/// parameter; a name the parent binds as a function keeps its binding
/// unless a parameter shadows it; and each parameter is an argument slot
/// carrying its last position.
pub proof fn lemma_function_scope(
    m: Map<Seq<char>, SymbolV>,
    names: Seq<Seq<char>>,
    k: Seq<char>,
)
    ensures
        (m.contains_key(k) && m[k] is Variable && !names.contains(k)) ==> !with_args(
            funcs_of(m),
            names,
            names.len() as int,
        ).contains_key(k),
        (m.contains_key(k) && m[k] is Function && !names.contains(k)) ==> (with_args(
            funcs_of(m),
            names,
            names.len() as int,
        ).contains_key(k) && with_args(funcs_of(m), names, names.len() as int)[k] == m[k]),
        forall|i: int|
            0 <= i < names.len() && names[i] == k && (forall|j: int|
                i < j < names.len() ==> names[j] != k) ==> (with_args(
                funcs_of(m),
                names,
                names.len() as int,
            ).contains_key(k) && with_args(funcs_of(m), names, names.len() as int)[k]
                == SymbolV::Argument(i)),
{
    if !names.contains(k) {
        assert(forall|i: int| 0 <= i < names.len() ==> names[i] != k);
        lemma_with_args_frame(funcs_of(m), names, names.len() as int, k);
    }
    assert forall|i: int|
        0 <= i < names.len() && names[i] == k && (forall|j: int|
            i < j < names.len() ==> names[j] != k) implies (with_args(
        funcs_of(m),
        names,
        names.len() as int,
    ).contains_key(k) && with_args(funcs_of(m), names, names.len() as int)[k]
        == SymbolV::Argument(i)) by {
        lemma_with_args_at(funcs_of(m), names, names.len() as int, i);
    }
}

/// Law: redefining a function fully replaces its old arity and body,
/// atomically: after the second registration the name carries the new
/// arity and the new body, whatever it carried before.
pub proof fn lemma_redefinition_replaces(
    m: Map<Seq<char>, SymbolV>,
    name: Seq<char>,
    arity1: int,
    body1: AstV,
    arity2: int,
    body2: AstV,
)
    requires
        spec_is_func(m, name),
    ensures
        ({
            let m1 = spec_update_func(m, name, arity1, body1);
            let m2 = spec_update_func(m1, name, arity2, body2);
            m2.contains_key(name) && m2[name] == SymbolV::Function(arity2, body2)
        }),
{
}

/// The function bindings among the entries.
pub(crate) open spec fn funcs_entries(s: Seq<(String, Symbol)>) -> Map<Seq<char>, SymbolV>
    decreases s.len(),
{
    if s.len() == 0 {
        Map::empty()
    } else {
        let m = funcs_entries(s.drop_last());
        if s.last().1@ is Function {
            m.insert(s.last().0@, s.last().1@)
        } else {
            m
        }
    }
}

/// With unique keys, the function bindings of the entries are the function
/// bindings of the map they stand for.
proof fn lemma_funcs_entries(s: Seq<(String, Symbol)>)
    requires
        entries_wf(s),
    ensures
        funcs_entries(s) == funcs_of(assoc_map(s)),
    decreases s.len(),
{
    if s.len() == 0 {
        assert(funcs_entries(s) =~= funcs_of(assoc_map(s)));
    } else {
        let s0 = s.drop_last();
        lemma_funcs_entries(s0);
        lemma_assoc_contains(s0, s.last().0@);
        assert(!assoc_map(s0).contains_key(s.last().0@));
        if s.last().1@ is Function {
            assert(funcs_entries(s) =~= funcs_of(assoc_map(s)));
        } else {
            assert(funcs_entries(s) =~= funcs_of(assoc_map(s)));
        }
    }
}

impl Context {
    /// Key uniqueness of the underlying entries.
    pub closed spec fn wf(&self) -> bool {
        entries_wf(self.symbols@)
    }

    /// A fresh, empty symbol table.
    pub fn new() -> (r: Context)
        ensures
            r.wf(),
            r@ == Map::<Seq<char>, SymbolV>::empty(),
    {
        Context { symbols: Vec::new() }
    }

    /// The entry that carries the name, if any.
    #[verifier::loop_isolation(false)]
    fn find_index(&self, name: &str) -> (r: Option<usize>)
        requires
            self.wf(),
        ensures
            r matches Some(i) ==> (i < self.symbols@.len() && self.symbols@[i as int].0@ == name@
                && self@.contains_key(name@) && self@[name@] == self.symbols@[i as int].1@),
            r is None ==> !self@.contains_key(name@),
    {
        let mut i: usize = 0;
        while i < self.symbols.len()
            invariant
                0 <= i <= self.symbols@.len(),
                forall|j: int| 0 <= j < i ==> (#[trigger] self.symbols@[j]).0@ != name@,
            decreases self.symbols@.len() - i,
        {
            if str_eq(self.symbols[i].0.as_str(), name) {
                proof {
                    lemma_assoc_value(self.symbols@, i as int);
                }
                return Some(i);
            }
            i = i + 1;
        }
        proof {
            lemma_assoc_contains(self.symbols@, name@);
        }
        None
    }

    /// Write a variable: insert it, or overwrite an existing variable's
    /// value in place.  A name bound to a function or an argument is left
    /// untouched.
    pub fn update_var(&mut self, var: &str, val: Num)
        requires
            old(self).wf(),
        ensures
            final(self).wf(),
            final(self)@ == spec_update_var(old(self)@, var@, val),
    {
        match self.find_index(var) {
            Some(i) => {
                let tagged = match &self.symbols[i].1 {
                    Symbol::Variable(_) => true,
                    _ => false,
                };
                if tagged {
                    let name_s = self.symbols[i].0.clone();
                    let ghost olds = self.symbols@;
                    self.symbols[i] = (name_s, Symbol::Variable(val));
                    proof {
                        assert(self.symbols@ == olds.update(i as int, (name_s, Symbol::Variable(
                            val,
                        ))));
                        lemma_assoc_update(olds, i as int, (name_s, Symbol::Variable(val)));
                    }
                }
            },
            None => {
                let ghost olds = self.symbols@;
                let name_s = var.to_owned();
                let sym = Symbol::Variable(val);
                let ghost p = (name_s, sym);
                self.symbols.push((name_s, sym));
                proof {
                    lemma_assoc_push(olds, p);
                    lemma_assoc_contains(olds, var@);
                    assert(entries_wf(self.symbols@));
                }
            },
        }
    }

    /// Register a function: insert it, or overwrite an existing function's
    /// arity and body in place, atomically.  A name bound to a variable or
    /// an argument is left untouched.
    pub fn update_func(&mut self, func: &Function)
        requires
            old(self).wf(),
        ensures
            final(self).wf(),
            final(self)@ == spec_update_func(
                old(self)@,
                func.name@,
                func.arity as int,
                func.body_view(),
            ),
    {
        let sym = Symbol::Function(func.arity, rc_dup(&func.expr));
        match self.find_index(func.name.as_str()) {
            Some(i) => {
                let tagged = match &self.symbols[i].1 {
                    Symbol::Function(_, _) => true,
                    _ => false,
                };
                if tagged {
                    let name_s = self.symbols[i].0.clone();
                    let ghost olds = self.symbols@;
                    let ghost p = (name_s, sym);
                    self.symbols[i] = (name_s, sym);
                    proof {
                        lemma_assoc_update(olds, i as int, p);
                    }
                }
            },
            None => {
                let ghost olds = self.symbols@;
                let name_s = func.name.clone();
                let ghost p = (name_s, sym);
                self.symbols.push((name_s, sym));
                proof {
                    lemma_assoc_push(olds, p);
                    lemma_assoc_contains(olds, func.name@);
                    assert(entries_wf(self.symbols@));
                }
            },
        }
    }

    /// Whether the name may be assigned to: unknown names are permissive.
    pub fn is_var(&self, var: &str) -> (r: bool)
        requires
            self.wf(),
        ensures
            r == spec_is_var(self@, var@),
    {
        match self.find_index(var) {
            None => true,
            Some(i) => match &self.symbols[i].1 {
                Symbol::Variable(_) => true,
                _ => false,
            },
        }
    }

    /// Whether the name may be called or defined: unknown names are
    /// permissive.
    pub fn is_func(&self, var: &str) -> (r: bool)
        requires
            self.wf(),
        ensures
            r == spec_is_func(self@, var@),
    {
        match self.find_index(var) {
            None => true,
            Some(i) => match &self.symbols[i].1 {
                Symbol::Function(_, _) => true,
                _ => false,
            },
        }
    }

    /// The value of the named variable, when the name is bound to one.
    pub fn get_var(&self, var: &str) -> (r: Option<Num>)
        requires
            self.wf(),
        ensures
            r matches Some(n) ==> (self@.contains_key(var@) && self@[var@] == SymbolV::Variable(n)),
            r is None ==> !self@.contains_key(var@) || !(self@[var@] is Variable),
    {
        match self.find_index(var) {
            None => None,
            Some(i) => match &self.symbols[i].1 {
                Symbol::Variable(n) => Some(*n),
                _ => None,
            },
        }
    }

    /// The position of the named argument slot, when the name is bound to
    /// one.
    pub fn get_arg(&self, var: &str) -> (r: Option<usize>)
        requires
            self.wf(),
        ensures
            r matches Some(idx) ==> (self@.contains_key(var@) && self@[var@] == SymbolV::Argument(
                idx as int,
            )),
            r is None ==> !self@.contains_key(var@) || !(self@[var@] is Argument),
    {
        match self.find_index(var) {
            None => None,
            Some(i) => match &self.symbols[i].1 {
                Symbol::Argument(idx) => Some(*idx),
                _ => None,
            },
        }
    }

    /// The arity of the named function, when the name is bound to one.
    pub fn get_arity(&self, var: &str) -> (r: Option<usize>)
        requires
            self.wf(),
        ensures
            r matches Some(a) ==> (self@.contains_key(var@) && (self@[var@] matches SymbolV::Function(
                ar,
                _,
            ) && ar == a as int)),
            r is None ==> !self@.contains_key(var@) || !(self@[var@] is Function),
    {
        match self.find_index(var) {
            None => None,
            Some(i) => match &self.symbols[i].1 {
                Symbol::Function(a, _) => Some(*a),
                _ => None,
            },
        }
    }

    /// The body of the named function, when the name is bound to one.
    pub fn get_func(&self, var: &str) -> (r: Option<Rc<Ast>>)
        requires
            self.wf(),
        ensures
            r matches Some(body) ==> (self@.contains_key(var@)
                && (self@[var@] matches SymbolV::Function(_, b) && ast_view(*body) == b)),
            r is None ==> !self@.contains_key(var@) || !(self@[var@] is Function),
    {
        match self.find_index(var) {
            None => None,
            Some(i) => match &self.symbols[i].1 {
                Symbol::Function(_, body) => Some(rc_dup(body)),
                _ => None,
            },
        }
    }

    /// The restricted child context a function body is parsed in: the
    /// parent's functions, and an argument slot for each parameter by
    /// position.  The parent's variables are not carried over.
    #[verifier::loop_isolation(false)]
    pub fn function_ctx(args: Vec<String>, parent: &Context) -> (r: Context)
        requires
            parent.wf(),
        ensures
            r.wf(),
            r@ == with_args(funcs_of(parent@), args.deep_view(), args.deep_view().len() as int),
    {
        let mut ctx = Context { symbols: Vec::new() };
        let mut i: usize = 0;
        while i < parent.symbols.len()
            invariant
                0 <= i <= parent.symbols@.len(),
                entries_wf(ctx.symbols@),
                ctx@ == funcs_entries(parent.symbols@.take(i as int)),
                forall|m: int| 0 <= m < ctx.symbols@.len() ==> exists|j: int|
                    0 <= j < i && (#[trigger] ctx.symbols@[m]).0@ == parent.symbols@[j].0@,
            decreases parent.symbols@.len() - i,
        {
            proof {
                assert(parent.symbols@.take(i + 1).drop_last() =~= parent.symbols@.take(i as int));
                assert(parent.symbols@.take(i + 1).last() == parent.symbols@[i as int]);
            }
            let copied: Option<Symbol> = match &parent.symbols[i].1 {
                Symbol::Function(a, body) => Some(Symbol::Function(*a, rc_dup(body))),
                _ => None,
            };
            if let Some(sym) = copied {
                let name_s = parent.symbols[i].0.clone();
                let ghost olds = ctx.symbols@;
                ctx.symbols.push((name_s, sym));
                proof {
                    lemma_assoc_push(olds, (name_s, sym));
                    assert forall|m: int| 0 <= m < olds.len() implies olds[m].0@
                        != parent.symbols@[i as int].0@ by {
                        let j = choose|j: int| 0 <= j < i && (#[trigger] olds[m]).0@
                            == parent.symbols@[j].0@;
                    }
                    assert(entries_wf(ctx.symbols@));
                }
            }
            i = i + 1;
        }
        proof {
            assert(parent.symbols@.take(parent.symbols@.len() as int) =~= parent.symbols@);
            lemma_funcs_entries(parent.symbols@);
            assert(ctx@ == funcs_of(parent@));
        }
        let ghost names = args.deep_view();
        let mut k: usize = 0;
        while k < args.len()
            invariant
                0 <= k <= args@.len(),
                names == args.deep_view(),
                entries_wf(ctx.symbols@),
                ctx@ == with_args(funcs_of(parent@), names, k as int),
            decreases args@.len() - k,
        {
            let name_s = args[k].clone();
            proof {
                assert(names[k as int] == args@[k as int]@);
            }
            match ctx.find_index(name_s.as_str()) {
                Some(j) => {
                    let ghost olds = ctx.symbols@;
                    let sym = Symbol::Argument(k);
                    let ghost p = (name_s, sym);
                    ctx.symbols[j] = (name_s, sym);
                    proof {
                        lemma_assoc_update(olds, j as int, p);
                    }
                },
                None => {
                    let ghost olds = ctx.symbols@;
                    let sym = Symbol::Argument(k);
                    let ghost p = (name_s, sym);
                    ctx.symbols.push((name_s, sym));
                    proof {
                        lemma_assoc_push(olds, p);
                        lemma_assoc_contains(olds, p.0@);
                        assert(entries_wf(ctx.symbols@));
                    }
                },
            }
            k = k + 1;
        }
        proof {
            assert(args.deep_view().len() == args@.len());
        }
        ctx
    }
}

} // verus!
