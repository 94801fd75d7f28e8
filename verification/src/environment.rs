// Values and scopes: the values that a program computes with, how they are
// written, and the scopes that bind names to them.

use crate::ast_nodes::{duplicate_strings, ASTNode, Ast};
use crate::errors::{ErrorKind, ErrorView, KyaroError, RuntimeKind};
use crate::number::{integer_of, is_zero, small_integer, zero};
use crate::text::{integer_text, push_integer, push_str, texts};
use vstd::prelude::*;
use vstd::string::StringExecFns;

verus! {

/// A value of the language.
#[derive(Debug)]
pub enum Value {
    /// A number, as the 64 bits of its double-precision form.
    Number(u64),
    String(String),
    Boolean(bool),
    Null,
    List(Vec<Value>),
    /// A function of the program. `scope` is the scope it was declared in:
    /// the parent of the scope that each call of it opens.
    Function { name: String, parameters: Vec<String>, body: ASTNode, scope: usize },
    /// A function that the embedding program provides, by its name.
    Native(String),
}

/// A value as a mathematical value.
pub enum Val {
    Number(u64),
    String(Seq<char>),
    Boolean(bool),
    Null,
    List(Seq<Val>),
    Function { name: Seq<char>, parameters: Seq<Seq<char>>, body: Ast, scope: nat },
    Native(Seq<char>),
}

impl View for Value {
    type V = Val;

    open spec fn view(&self) -> Val {
        self.val()
    }
}

/// The mathematical values of a run of values, in order.
pub open spec fn vals(values: Seq<Value>) -> Seq<Val> {
    Seq::new(values.len(), |i: int| values[i]@)
}

/// The name of a value's type.
pub open spec fn type_of(v: Val) -> Seq<char> {
    match v {
        Val::Number(_) => "number"@,
        Val::String(_) => "string"@,
        Val::Boolean(_) => "boolean"@,
        Val::Null => "null"@,
        Val::List(_) => "list"@,
        Val::Function { .. } => "function"@,
        Val::Native(_) => "function"@,
    }
}

/// Whether a value counts as true. False are `false`, null, zero, the empty
/// string and the empty list; every other value is true.
pub open spec fn truthy(v: Val) -> bool {
    match v {
        Val::Boolean(b) => b,
        Val::Null => false,
        Val::Number(bits) => !is_zero(bits),
        Val::String(s) => s.len() > 0,
        Val::List(items) => items.len() > 0,
        Val::Function { .. } => true,
        Val::Native(_) => true,
    }
}

/// Whether every function inside `v` was declared in one of the first
/// `count` scopes.
pub open spec fn fits(v: Val, count: nat) -> bool
    decreases v,
{
    match v {
        Val::List(items) => forall|i: int| 0 <= i < items.len() ==> fits(#[trigger] items[i], count),
        Val::Function { scope, .. } => scope < count,
        _ => true,
    }
}

/// A value that fits a number of scopes fits every larger number of them.
pub proof fn lemma_fits_more(v: Val, count: nat, more: nat)
    requires
        fits(v, count),
        count <= more,
    ensures
        fits(v, more),
    decreases v,
{
    match v {
        Val::List(items) => {
            assert forall|i: int| 0 <= i < items.len() implies fits(#[trigger] items[i], more) by {
                lemma_fits_more(items[i], count, more);
            }
        },
        _ => {},
    }
}

/// The parts joined into one text, with `separator` between each two.
pub open spec fn join(parts: Seq<Seq<char>>, separator: Seq<char>) -> Seq<char>
    decreases parts.len(),
{
    if parts.len() == 0 {
        Seq::empty()
    } else if parts.len() == 1 {
        parts[0]
    } else {
        join(parts.drop_last(), separator) + separator + parts.last()
    }
}

/// Whether `numeral` can return the text `s` for the number `bits`.
pub open spec fn numeral_of<F: Fn(u64) -> String>(numeral: F, bits: u64, s: Seq<char>) -> bool {
    exists|t: String| #[trigger] call_ensures(numeral, (bits,), t) && t@ == s
}

/// Whether `s` is the text of `v`, with `numeral` giving the text of every
/// number that is no whole number of a size below two to the power 63.
///
/// Such a whole number is written in decimal without a point. A string is
/// its own text. Booleans are `True` and `False`, null is `None`. A list is
/// written in brackets, its items separated by a comma and a space, and a
/// string among the items in single quotes. A function is written as
/// `<function NAME>`.
pub open spec fn renders<F: Fn(u64) -> String>(v: Val, numeral: F, s: Seq<char>) -> bool
    decreases v, 2nat,
{
    match v {
        Val::Number(bits) => match integer_of(bits) {
            Some(n) => s == integer_text(n),
            None => numeral_of(numeral, bits, s),
        },
        Val::String(text) => s == text,
        Val::Boolean(b) => s == (if b {
            "True"@
        } else {
            "False"@
        }),
        Val::Null => s == "None"@,
        Val::List(items) => exists|parts: Seq<Seq<char>>|
            {
                &&& #[trigger] parts.len() == items.len()
                &&& forall|i: int|
                    0 <= i < items.len() ==> render_item(items[i], numeral, #[trigger] parts[i])
                &&& s == "["@ + join(parts, ", "@) + "]"@
            },
        Val::Function { name, .. } => s == "<function "@ + name + ">"@,
        Val::Native(name) => s == "<function "@ + name + ">"@,
    }
}

/// Whether `s` is the text of `v` as an item of a list.
pub open spec fn render_item<F: Fn(u64) -> String>(v: Val, numeral: F, s: Seq<char>) -> bool
    decreases v, 3nat,
{
    match v {
        Val::String(text) => s == "'"@ + text + "'"@,
        _ => renders(v, numeral, s),
    }
}

/// The text of a list is made of the texts of its items.
pub proof fn lemma_list_renders<F: Fn(u64) -> String>(
    items: Seq<Val>,
    numeral: F,
    parts: Seq<Seq<char>>,
    s: Seq<char>,
)
    requires
        parts.len() == items.len(),
        forall|i: int| 0 <= i < items.len() ==> render_item(items[i], numeral, #[trigger] parts[i]),
        s == "["@ + join(parts, ", "@) + "]"@,
    ensures
        renders(Val::List(items), numeral, s),
{
    let v = Val::List(items);
    assert forall|i: int| 0 <= i < v->List_0.len() implies render_item(
        v->List_0[i],
        numeral,
        #[trigger] parts[i],
    ) by {}
}

impl Value {
    /// This value as a mathematical value.
    pub open spec fn val(&self) -> Val
        decreases self,
    {
        match self {
            Value::Number(bits) => Val::Number(*bits),
            Value::String(s) => Val::String(s@),
            Value::Boolean(b) => Val::Boolean(*b),
            Value::Null => Val::Null,
            Value::List(items) => Val::List(
                Seq::new(
                    items@.len(),
                    |i: int|
                        if 0 <= i < items@.len() {
                            items@[i].val()
                        } else {
                            Val::Null
                        },
                ),
            ),
            Value::Function { name, parameters, body, scope } => Val::Function {
                name: name@,
                parameters: texts(parameters@),
                body: body@,
                scope: *scope as nat,
            },
            Value::Native(name) => Val::Native(name@),
        }
    }

    /// The value of a list is the list of its items' values.
    pub proof fn lemma_list(&self)
        ensures
            self matches Value::List(items) ==> self@ == Val::List(vals(items@)),
    {
        if let Value::List(items) = self {
            assert(self@->List_0 =~= vals(items@));
        }
    }

    /// A copy of this value.
    pub fn duplicate(&self) -> (copy: Value)
        ensures
            copy@ == self@,
        decreases self,
    {
        let copy = match self {
            Value::Number(bits) => Value::Number(*bits),
            Value::String(s) => Value::String(s.clone()),
            Value::Boolean(b) => Value::Boolean(*b),
            Value::Null => Value::Null,
            Value::List(items) => Value::List(duplicate_values(items)),
            Value::Function { name, parameters, body, scope } => Value::Function {
                name: name.clone(),
                parameters: duplicate_strings(parameters),
                body: body.duplicate(),
                scope: *scope,
            },
            Value::Native(name) => Value::Native(name.clone()),
        };
        proof {
            self.lemma_list();
            copy.lemma_list();
        }
        copy
    }

    /// The name of this value's type.
    pub fn type_of(&self) -> (name: &'static str)
        ensures
            name@ == type_of(self@),
    {
        match self {
            Value::Number(_) => "number",
            Value::String(_) => "string",
            Value::Boolean(_) => "boolean",
            Value::Null => "null",
            Value::List(_) => "list",
            Value::Function { .. } => "function",
            Value::Native(_) => "function",
        }
    }

    /// Whether this value counts as true.
    pub fn is_truthy(&self) -> (r: bool)
        ensures
            r == truthy(self@),
    {
        match self {
            Value::Boolean(b) => *b,
            Value::Null => false,
            Value::Number(bits) => !zero(*bits),
            Value::String(s) => s.as_str().unicode_len() > 0,
            Value::List(items) => items.len() > 0,
            Value::Function { .. } => true,
            Value::Native(_) => true,
        }
    }

    /// Whether every function inside this value was declared in one of the
    /// first `count` scopes.
    pub fn fits_in(&self, count: usize) -> (r: bool)
        ensures
            r == fits(self@, count as nat),
        decreases self,
    {
        match self {
            Value::List(items) => {
                let r = all_fit_in(items, count);
                proof {
                    self.lemma_list();
                    let list = vals(items@);
                    assert(self@ == Val::List(list));
                    reveal_with_fuel(fits, 2);
                    if r {
                        assert forall|i: int| 0 <= i < list.len() implies fits(
                            #[trigger] list[i],
                            count as nat,
                        ) by {}
                    } else {
                        let i = choose|i: int|
                            0 <= i < items@.len() && !fits(#[trigger] list[i], count as nat);
                        assert(!fits(self@->List_0[i], count as nat));
                    }
                }
                r
            },
            Value::Function { scope, .. } => *scope < count,
            _ => true,
        }
    }
}

impl Value {
    /// The text of this value. `numeral` is asked for the text of every
    /// number inside it that is no whole number of a size below two to the
    /// power 63.
    pub fn to_string<F: Fn(u64) -> String>(&self, numeral: &F) -> (s: String)
        requires
            forall|bits: u64| call_requires(*numeral, (bits,)),
        ensures
            renders(self@, *numeral, s@),
        decreases self, 2nat,
    {
        match self {
            Value::Number(bits) => match small_integer(*bits) {
                Some(n) => {
                    let mut s = String::new();
                    push_integer(&mut s, n);
                    assert(s@ =~= integer_text(n as int));
                    s
                },
                None => numeral(*bits),
            },
            Value::String(text) => text.clone(),
            Value::Boolean(b) => if *b {
                String::from_str("True")
            } else {
                String::from_str("False")
            },
            Value::Null => String::from_str("None"),
            Value::List(items) => {
                proof {
                    self.lemma_list();
                }
                list_text(items, numeral)
            },
            Value::Function { name, .. } => function_text(name),
            Value::Native(name) => function_text(name),
        }
    }

    /// The text of this value as an item of a list: a string in single
    /// quotes, every other value as it is written elsewhere.
    pub fn to_item_string<F: Fn(u64) -> String>(&self, numeral: &F) -> (s: String)
        requires
            forall|bits: u64| call_requires(*numeral, (bits,)),
        ensures
            render_item(self@, *numeral, s@),
        decreases self, 3nat,
    {
        match self {
            Value::String(text) => {
                let mut s = String::from_str("'");
                push_str(&mut s, text.as_str());
                push_str(&mut s, "'");
                s
            },
            _ => self.to_string(numeral),
        }
    }
}

fn function_text(name: &String) -> (s: String)
    ensures
        s@ == "<function "@ + name@ + ">"@,
{
    let mut s = String::from_str("<function ");
    push_str(&mut s, name.as_str());
    push_str(&mut s, ">");
    s
}

/// The text of a list with the items `items`.
fn list_text<F: Fn(u64) -> String>(items: &Vec<Value>, numeral: &F) -> (s: String)
    requires
        forall|bits: u64| call_requires(*numeral, (bits,)),
    ensures
        renders(Val::List(vals(items@)), *numeral, s@),
    decreases items, 4nat,
{
    let mut s = String::from_str("[");
    let ghost mut parts: Seq<Seq<char>> = Seq::empty();
    let mut i: usize = 0;
    assert("["@ + join(parts, ", "@) =~= "["@);
    while i < items.len()
        invariant
            i <= items.len(),
            parts.len() == i,
            forall|bits: u64| call_requires(*numeral, (bits,)),
            forall|j: int|
                0 <= j < i ==> render_item(vals(items@)[j], *numeral, #[trigger] parts[j]),
            s@ == "["@ + join(parts, ", "@),
        decreases items.len() - i,
    {
        if i > 0 {
            push_str(&mut s, ", ");
        }
        let part = items[i].to_item_string(numeral);
        push_str(&mut s, part.as_str());
        proof {
            let longer = parts.push(part@);
            assert(longer.drop_last() =~= parts);
            assert(s@ =~= "["@ + join(longer, ", "@));
            parts = longer;
        }
        i += 1;
    }
    push_str(&mut s, "]");
    proof {
        lemma_list_renders(vals(items@), *numeral, parts, s@);
    }
    s
}

/// A copy of each value of `values`, in order.
pub fn duplicate_values(values: &Vec<Value>) -> (copies: Vec<Value>)
    ensures
        vals(copies@) == vals(values@),
    decreases values,
{
    let mut copies: Vec<Value> = Vec::new();
    let mut i: usize = 0;
    while i < values.len()
        invariant
            i <= values.len(),
            copies@.len() == i,
            forall|j: int| 0 <= j < i ==> copies@[j]@ == values@[j]@,
        decreases values.len() - i,
    {
        copies.push(values[i].duplicate());
        i += 1;
    }
    assert(vals(copies@) =~= vals(values@));
    copies
}

/// Whether every function inside the values was declared in one of the first
/// `count` scopes.
pub fn all_fit_in(values: &Vec<Value>, count: usize) -> (r: bool)
    ensures
        r == forall|i: int| 0 <= i < values@.len() ==> fits(#[trigger] vals(values@)[i], count as nat),
    decreases values,
{
    let mut i: usize = 0;
    while i < values.len()
        invariant
            i <= values.len(),
            forall|j: int| 0 <= j < i ==> fits(#[trigger] vals(values@)[j], count as nat),
        decreases values.len() - i,
    {
        if !values[i].fits_in(count) {
            assert(!fits(vals(values@)[i as int], count as nat));
            return false;
        }
        i += 1;
    }
    true
}

/// One scope as a mathematical value: what its names are bound to, and the
/// scope around it.
pub struct ScopeView {
    pub bindings: Map<Seq<char>, Val>,
    pub parent: Option<nat>,
}

/// The scopes of a program as a mathematical value. Scopes are numbered in
/// the order in which they were opened; `current` is the one that lookups
/// start in and definitions go to.
pub struct EnvView {
    pub scopes: Seq<ScopeView>,
    pub current: nat,
}

/// The value that `name` has seen from scope `id`: the binding in that scope
/// or, where it has none, in the nearest scope around it that has one.
pub open spec fn resolve(scopes: Seq<ScopeView>, id: nat, name: Seq<char>) -> Option<Val>
    decreases id,
{
    if id >= scopes.len() {
        None
    } else if scopes[id as int].bindings.contains_key(name) {
        Some(scopes[id as int].bindings[name])
    } else {
        match scopes[id as int].parent {
            Some(p) => if p < id {
                resolve(scopes, p, name)
            } else {
                None
            },
            None => None,
        }
    }
}

/// The scope that binds `name` seen from scope `id`: that scope or the
/// nearest one around it that has a binding for the name.
pub open spec fn binder(scopes: Seq<ScopeView>, id: nat, name: Seq<char>) -> Option<nat>
    decreases id,
{
    if id >= scopes.len() {
        None
    } else if scopes[id as int].bindings.contains_key(name) {
        Some(id)
    } else {
        match scopes[id as int].parent {
            Some(p) => if p < id {
                binder(scopes, p, name)
            } else {
                None
            },
            None => None,
        }
    }
}

/// The scopes after `name` was bound to `v` in scope `id`.
pub open spec fn bind(scopes: Seq<ScopeView>, id: nat, name: Seq<char>, v: Val) -> Seq<ScopeView> {
    scopes.update(
        id as int,
        ScopeView {
            bindings: scopes[id as int].bindings.insert(name, v),
            parent: scopes[id as int].parent,
        },
    )
}

/// The scopes after a new, empty scope was opened inside scope `parent`.
pub open spec fn open_scope(scopes: Seq<ScopeView>, parent: nat) -> Seq<ScopeView> {
    scopes.push(ScopeView { bindings: Map::empty(), parent: Some(parent) })
}

/// The error for a name that is bound nowhere.
pub open spec fn unbound(name: Seq<char>) -> ErrorView {
    ErrorView {
        kind: ErrorKind::Runtime(RuntimeKind::UnboundName),
        message: "Undefined variable '"@ + name + "'"@,
        line: 0,
        column: 0,
    }
}

/// Whether no two of `names` read the same.
pub open spec fn distinct(names: Seq<String>) -> bool {
    forall|i: int, j: int|
        0 <= i < j < names.len() ==> (#[trigger] names[i])@ != (#[trigger] names[j])@
}

/// What a scope's names are bound to: each name to the value at its index.
pub open spec fn bindings_of(names: Seq<String>, values: Seq<Value>) -> Map<Seq<char>, Val>
    decreases names.len(),
{
    if names.len() == 0 || values.len() != names.len() {
        Map::empty()
    } else {
        bindings_of(names.drop_last(), values.drop_last()).insert(names.last()@, values.last()@)
    }
}

/// The names that a scope binds are the names it holds.
pub proof fn lemma_bindings_domain(names: Seq<String>, values: Seq<Value>, name: Seq<char>)
    requires
        names.len() == values.len(),
    ensures
        bindings_of(names, values).contains_key(name) <==> exists|i: int|
            0 <= i < names.len() && (#[trigger] names[i])@ == name,
    decreases names.len(),
{
    if names.len() > 0 {
        lemma_bindings_domain(names.drop_last(), values.drop_last(), name);
        if bindings_of(names, values).contains_key(name) {
            if names.last()@ == name {
                assert(names[names.len() - 1]@ == name);
            } else {
                let i = choose|i: int|
                    0 <= i < names.drop_last().len() && (#[trigger] names.drop_last()[i])@ == name;
                assert(names[i]@ == name);
            }
        }
        if exists|i: int| 0 <= i < names.len() && (#[trigger] names[i])@ == name {
            let i = choose|i: int| 0 <= i < names.len() && (#[trigger] names[i])@ == name;
            if i < names.len() - 1 {
                assert(names.drop_last()[i]@ == name);
            }
        }
    }
}

/// A name that a scope holds is bound to the value at the same index.
pub proof fn lemma_bindings_value(names: Seq<String>, values: Seq<Value>, i: int)
    requires
        names.len() == values.len(),
        distinct(names),
        0 <= i < names.len(),
    ensures
        bindings_of(names, values).contains_key(names[i]@),
        bindings_of(names, values)[names[i]@] == values[i]@,
    decreases names.len(),
{
    if i < names.len() - 1 {
        assert(distinct(names.drop_last())) by {
            assert forall|a: int, b: int| 0 <= a < b < names.drop_last().len() implies (
            #[trigger] names.drop_last()[a])@ != (#[trigger] names.drop_last()[b])@ by {
                assert(names[a]@ != names[b]@);
            }
        }
        lemma_bindings_value(names.drop_last(), values.drop_last(), i);
        assert(names[i]@ != names[names.len() - 1]@);
    }
}

/// A new value at the index of a name binds the name to that value and
/// changes no other binding.
pub proof fn lemma_bindings_update(names: Seq<String>, values: Seq<Value>, i: int, value: Value)
    requires
        names.len() == values.len(),
        distinct(names),
        0 <= i < names.len(),
    ensures
        bindings_of(names, values.update(i, value)) == bindings_of(names, values).insert(
            names[i]@,
            value@,
        ),
    decreases names.len(),
{
    let updated = values.update(i, value);
    if i < names.len() - 1 {
        assert(distinct(names.drop_last())) by {
            assert forall|a: int, b: int| 0 <= a < b < names.drop_last().len() implies (
            #[trigger] names.drop_last()[a])@ != (#[trigger] names.drop_last()[b])@ by {
                assert(names[a]@ != names[b]@);
            }
        }
        lemma_bindings_update(names.drop_last(), values.drop_last(), i, value);
        assert(updated.drop_last() =~= values.drop_last().update(i, value));
        assert(names[i]@ != names[names.len() - 1]@);
        assert(bindings_of(names, updated) =~= bindings_of(names, values).insert(
            names[i]@,
            value@,
        ));
    } else {
        assert(updated.drop_last() =~= values.drop_last());
        assert(bindings_of(names, updated) =~= bindings_of(names, values).insert(
            names[i]@,
            value@,
        ));
    }
}

/// One scope: its names, each with the value at the same index, and the
/// scope around it.
pub struct Scope {
    names: Vec<String>,
    values: Vec<Value>,
    parent: Option<usize>,
}

impl View for Scope {
    type V = ScopeView;

    closed spec fn view(&self) -> ScopeView {
        ScopeView {
            bindings: bindings_of(self.names@, self.values@),
            parent: match self.parent {
                Some(p) => Some(p as nat),
                None => None,
            },
        }
    }
}

impl Scope {
    /// The scope's invariant: every name has one value, and no name occurs
    /// twice.
    pub closed spec fn wf(&self) -> bool {
        &&& self.names@.len() == self.values@.len()
        &&& distinct(self.names@)
    }

    fn find(&self, name: &String) -> (found: Option<usize>)
        requires
            self.wf(),
        ensures
            match found {
                Some(i) => i < self.names@.len() && self.names@[i as int]@ == name@
                    && self@.bindings.contains_key(name@) && self@.bindings[name@]
                    == self.values@[i as int]@,
                None => !self@.bindings.contains_key(name@) && forall|j: int|
                    0 <= j < self.names@.len() ==> (#[trigger] self.names@[j])@ != name@,
            },
    {
        let mut i: usize = 0;
        while i < self.names.len()
            invariant
                i <= self.names@.len(),
                self.wf(),
                forall|j: int| 0 <= j < i ==> (#[trigger] self.names@[j])@ != name@,
            decreases self.names.len() - i,
        {
            if self.names[i] == *name {
                proof {
                    lemma_bindings_value(self.names@, self.values@, i as int);
                }
                return Some(i);
            }
            i += 1;
        }
        proof {
            lemma_bindings_domain(self.names@, self.values@, name@);
        }
        None
    }

    fn put(&mut self, name: String, value: Value)
        requires
            old(self).wf(),
        ensures
            final(self).wf(),
            final(self)@.parent == old(self)@.parent,
            final(self)@.bindings == old(self)@.bindings.insert(name@, value@),
            forall|i: int|
                0 <= i < final(self).values@.len() ==> #[trigger] final(self).values@[i] == value || (
                i < old(self).values@.len() && final(self).values@[i] == old(self).values@[i]),
    {
        match self.find(&name) {
            Some(i) => {
                proof {
                    lemma_bindings_update(self.names@, self.values@, i as int, value);
                }
                self.values[i] = value;
            },
            None => {
                self.names.push(name);
                self.values.push(value);
                proof {
                    assert(self.names@.drop_last() =~= old(self).names@);
                    assert(self.values@.drop_last() =~= old(self).values@);
                }
            },
        }
    }
}


/// The scopes of a program that has not run yet: one empty scope, which lies
/// in no other.
pub open spec fn fresh() -> EnvView {
    EnvView { scopes: seq![ScopeView { bindings: Map::empty(), parent: None }], current: 0 }
}

/// Whether the scopes hang together: every scope lies inside one that was
/// opened before it, and every function that a name is bound to was declared
/// in a scope that exists.
pub open spec fn scopes_ok(scopes: Seq<ScopeView>) -> bool {
    &&& forall|i: int|
        0 <= i < scopes.len() ==> ((#[trigger] scopes[i]).parent matches Some(p) ==> p < i)
    &&& forall|i: int, name: Seq<char>|
        0 <= i < scopes.len() && (#[trigger] scopes[i].bindings.contains_key(name)) ==> fits(
            scopes[i].bindings[name],
            scopes.len(),
        )
}

/// Whether the scopes hang together and the current scope is one of them.
pub open spec fn env_ok(e: EnvView) -> bool {
    &&& e.current < e.scopes.len()
    &&& scopes_ok(e.scopes)
}

/// Binding a name to a value that fits keeps the scopes together.
pub proof fn lemma_bind_ok(scopes: Seq<ScopeView>, id: nat, name: Seq<char>, v: Val)
    requires
        scopes_ok(scopes),
        id < scopes.len(),
        fits(v, scopes.len()),
    ensures
        scopes_ok(bind(scopes, id, name, v)),
        bind(scopes, id, name, v).len() == scopes.len(),
{
    let after = bind(scopes, id, name, v);
    assert forall|i: int| 0 <= i < after.len() implies ((#[trigger] after[i]).parent matches Some(p)
        ==> p < i) by {
        assert(after[i].parent == scopes[i].parent);
    }
    assert forall|i: int, key: Seq<char>|
        0 <= i < after.len() && (#[trigger] after[i].bindings.contains_key(key)) implies fits(
        after[i].bindings[key],
        after.len(),
    ) by {
        if i == id && key == name {
        } else {
            assert(scopes[i].bindings.contains_key(key));
        }
    }
}

/// Opening a scope inside one that exists keeps the scopes together.
pub proof fn lemma_open_ok(scopes: Seq<ScopeView>, parent: nat)
    requires
        scopes_ok(scopes),
        parent < scopes.len(),
    ensures
        scopes_ok(open_scope(scopes, parent)),
        open_scope(scopes, parent).len() == scopes.len() + 1,
{
    let after = open_scope(scopes, parent);
    assert forall|i: int| 0 <= i < after.len() implies ((#[trigger] after[i]).parent matches Some(p)
        ==> p < i) by {
        if i < scopes.len() {
            assert(after[i] == scopes[i]);
        }
    }
    assert forall|i: int, key: Seq<char>|
        0 <= i < after.len() && (#[trigger] after[i].bindings.contains_key(key)) implies fits(
        after[i].bindings[key],
        after.len(),
    ) by {
        if i < scopes.len() {
            assert(after[i] == scopes[i]);
            assert(scopes[i].bindings.contains_key(key));
            lemma_fits_more(scopes[i].bindings[key], scopes.len(), after.len());
        }
    }
}

/// What a name resolves to, in scopes that hang together, fits them.
pub proof fn lemma_resolve_fits(scopes: Seq<ScopeView>, id: nat, name: Seq<char>)
    requires
        scopes_ok(scopes),
    ensures
        resolve(scopes, id, name) matches Some(v) ==> fits(v, scopes.len()),
    decreases id,
{
    if id < scopes.len() {
        if scopes[id as int].bindings.contains_key(name) {
        } else if let Some(p) = scopes[id as int].parent {
            if p < id {
                lemma_resolve_fits(scopes, p, name);
            }
        }
    }
}

/// The scopes of a running program. A scope is never closed: a function
/// keeps the scope it was declared in for as long as it lives.
pub struct Environment {
    scopes: Vec<Scope>,
    current: usize,
}

impl View for Environment {
    type V = EnvView;

    closed spec fn view(&self) -> EnvView {
        EnvView {
            scopes: Seq::new(self.scopes@.len(), |i: int| self.scopes@[i]@),
            current: self.current as nat,
        }
    }
}

impl Environment {
    /// The environment's invariant. It implies `env_ok` of the view.
    pub closed spec fn wf(&self) -> bool {
        &&& self.current < self.scopes@.len()
        &&& forall|i: int| 0 <= i < self.scopes@.len() ==> (#[trigger] self.scopes@[i]).wf()
        &&& forall|i: int|
            0 <= i < self.scopes@.len() ==> ((#[trigger] self.scopes@[i]).parent matches Some(p)
                ==> p < i)
        &&& forall|i: int, j: int|
            0 <= i < self.scopes@.len() && 0 <= j < self.scopes@[i].values@.len() ==> fits(
                (#[trigger] self.scopes@[i].values@[j])@,
                self.scopes@.len(),
            )
    }

    /// The environment's invariant implies that the scopes hang together.
    pub proof fn lemma_wf(&self)
        requires
            self.wf(),
        ensures
            env_ok(self@),
    {
        let e = self@;
        assert forall|i: int, name: Seq<char>|
            0 <= i < e.scopes.len() && (#[trigger] e.scopes[i].bindings.contains_key(
                name,
            )) implies fits(e.scopes[i].bindings[name], e.scopes.len()) by {
            let scope = self.scopes@[i];
            assert(scope.wf());
            lemma_bindings_domain(scope.names@, scope.values@, name);
            let j = choose|j: int| 0 <= j < scope.names@.len() && (#[trigger] scope.names@[j])@ == name;
            lemma_bindings_value(scope.names@, scope.values@, j);
            assert(fits(self.scopes@[i].values@[j]@, self.scopes@.len()));
        }
        assert forall|i: int| 0 <= i < e.scopes.len() implies ((#[trigger] e.scopes[i]).parent matches Some(
            p,
        ) ==> p < i) by {
            assert(self.scopes@[i].wf());
        }
    }

    /// An environment of one scope, which is empty and lies in no other.
    pub fn new() -> (env: Self)
        ensures
            env.wf(),
            env@ == fresh(),
    {
        let mut scopes: Vec<Scope> = Vec::new();
        scopes.push(Scope { names: Vec::new(), values: Vec::new(), parent: None });
        let env = Self { scopes, current: 0 };
        assert(env@.scopes =~= seq![ScopeView { bindings: Map::empty(), parent: None }]);
        env
    }

    /// The environment after a new scope was opened inside the current scope
    /// of `parent` and made the current one.
    pub fn with_parent(parent: Environment) -> (env: Self)
        requires
            parent.wf(),
        ensures
            env.wf(),
            env@ == (EnvView {
                scopes: open_scope(parent@.scopes, parent@.current),
                current: parent@.scopes.len(),
            }),
    {
        let mut env = parent;
        let inside = env.current;
        env.enter(inside);
        env
    }

    /// The number of the current scope.
    pub fn current(&self) -> (id: usize)
        ensures
            id == self@.current,
    {
        self.current
    }

    /// How many scopes there are.
    pub fn count(&self) -> (n: usize)
        ensures
            n == self@.scopes.len(),
    {
        self.scopes.len()
    }

    /// Opens a new, empty scope inside scope `parent` and makes it the
    /// current one.
    pub fn enter(&mut self, parent: usize)
        requires
            old(self).wf(),
            parent < old(self)@.scopes.len(),
        ensures
            final(self).wf(),
            final(self)@ == (EnvView {
                scopes: open_scope(old(self)@.scopes, parent as nat),
                current: old(self)@.scopes.len(),
            }),
    {
        let id = self.scopes.len();
        self.scopes.push(Scope { names: Vec::new(), values: Vec::new(), parent: Some(parent) });
        self.current = id;
        proof {
            assert(self@.scopes =~= open_scope(old(self)@.scopes, parent as nat));
            assert forall|i: int, j: int|
                0 <= i < self.scopes@.len() && 0 <= j < self.scopes@[i].values@.len() implies fits(
                (#[trigger] self.scopes@[i].values@[j])@,
                self.scopes@.len(),
            ) by {
                assert(self.scopes@[i] == old(self).scopes@[i]);
                lemma_fits_more(
                    old(self).scopes@[i].values@[j]@,
                    old(self).scopes@.len(),
                    self.scopes@.len(),
                );
            }
        }
    }

    /// Makes scope `scope` the current one.
    pub fn switch_to(&mut self, scope: usize)
        requires
            old(self).wf(),
            scope < old(self)@.scopes.len(),
        ensures
            final(self).wf(),
            final(self)@ == (EnvView { scopes: old(self)@.scopes, current: scope as nat }),
    {
        self.current = scope;
    }

    /// Binds `name` to `value` in the current scope, whether or not the name
    /// was bound there before.
    pub fn define(&mut self, name: String, value: Value)
        requires
            old(self).wf(),
            fits(value@, old(self)@.scopes.len()),
        ensures
            final(self).wf(),
            final(self)@ == (EnvView {
                scopes: bind(old(self)@.scopes, old(self)@.current, name@, value@),
                current: old(self)@.current,
            }),
    {
        let id = self.current;
        self.put_in(id, name, value);
    }

    fn put_in(&mut self, id: usize, name: String, value: Value)
        requires
            old(self).wf(),
            id < old(self)@.scopes.len(),
            fits(value@, old(self)@.scopes.len()),
        ensures
            final(self).wf(),
            final(self)@ == (EnvView {
                scopes: bind(old(self)@.scopes, id as nat, name@, value@),
                current: old(self)@.current,
            }),
    {
        assert(self.scopes@[id as int].wf());
        self.scopes[id].put(name, value);
        proof {
            assert(self@.scopes =~= bind(old(self)@.scopes, id as nat, name@, value@));
            assert forall|i: int| 0 <= i < self.scopes@.len() implies (#[trigger] self.scopes@[i]).wf() by {
                if i != id {
                    assert(self.scopes@[i] == old(self).scopes@[i]);
                }
            }
            assert forall|i: int|
                0 <= i < self.scopes@.len() implies ((#[trigger] self.scopes@[i]).parent matches Some(
                p,
            ) ==> p < i) by {
                assert(old(self).scopes@[i].wf() || true);
                if i != id {
                    assert(self.scopes@[i] == old(self).scopes@[i]);
                } else {
                    assert(self.scopes@[i]@.parent == old(self).scopes@[i]@.parent);
                }
            }
            assert forall|i: int, j: int|
                0 <= i < self.scopes@.len() && 0 <= j < self.scopes@[i].values@.len() implies fits(
                (#[trigger] self.scopes@[i].values@[j])@,
                self.scopes@.len(),
            ) by {
                if i != id {
                    assert(self.scopes@[i] == old(self).scopes@[i]);
                }
            }
        }
    }

    /// The value that `name` is bound to, seen from the current scope, or
    /// `None` where no scope from the current one outward binds it.
    pub fn lookup(&self, name: &str) -> (found: Option<Value>)
        requires
            self.wf(),
        ensures
            match found {
                Some(value) => resolve(self@.scopes, self@.current, name@) == Some(value@) && fits(
                    value@,
                    self@.scopes.len(),
                ),
                None => resolve(self@.scopes, self@.current, name@) is None,
            },
    {
        let key = String::from_str(name);
        let mut id = self.current;
        loop
            invariant
                self.wf(),
                key@ == name@,
                id < self.scopes@.len(),
                resolve(self@.scopes, self@.current, name@) == resolve(
                    self@.scopes,
                    id as nat,
                    name@,
                ),
            decreases id,
        {
            let scope = &self.scopes[id];
            assert(scope.wf());
            match scope.find(&key) {
                Some(i) => {
                    return Some(scope.values[i].duplicate());
                },
                None => match scope.parent {
                    Some(p) => {
                        id = p;
                    },
                    None => {
                        return None;
                    },
                },
            }
        }
    }

    /// The value that `name` is bound to, seen from the current scope.
    pub fn get(&self, name: &str) -> (r: Result<Value, KyaroError>)
        requires
            self.wf(),
        ensures
            match r {
                Ok(value) => resolve(self@.scopes, self@.current, name@) == Some(value@) && fits(
                    value@,
                    self@.scopes.len(),
                ),
                Err(e) => resolve(self@.scopes, self@.current, name@) is None && e@ == unbound(
                    name@,
                ),
            },
    {
        match self.lookup(name) {
            Some(value) => Ok(value),
            None => Err(unbound_name(name)),
        }
    }

    /// Gives `name` a new value in the scope that binds it, seen from the
    /// current scope. Where no scope binds it, nothing changes.
    pub fn set(&mut self, name: &str, value: Value) -> (r: Result<(), KyaroError>)
        requires
            old(self).wf(),
            fits(value@, old(self)@.scopes.len()),
        ensures
            final(self).wf(),
            match r {
                Ok(_) => binder(old(self)@.scopes, old(self)@.current, name@) matches Some(id)
                    && final(self)@ == (EnvView {
                    scopes: bind(old(self)@.scopes, id, name@, value@),
                    current: old(self)@.current,
                }),
                Err(e) => binder(old(self)@.scopes, old(self)@.current, name@) is None
                    && final(self)@ == old(self)@ && e@ == unbound(name@),
            },
    {
        let key = String::from_str(name);
        let mut id = self.current;
        loop
            invariant
                self.wf(),
                *self == *old(self),
                key@ == name@,
                id < self.scopes@.len(),
                fits(value@, self@.scopes.len()),
                binder(self@.scopes, self@.current, name@) == binder(
                    self@.scopes,
                    id as nat,
                    name@,
                ),
            decreases id,
        {
            let scope = &self.scopes[id];
            assert(scope.wf());
            match scope.find(&key) {
                Some(i) => {
                    self.put_in(id, key, value);
                    return Ok(());
                },
                None => match scope.parent {
                    Some(p) => {
                        id = p;
                    },
                    None => {
                        return Err(unbound_name(name));
                    },
                },
            }
        }
    }
}

/// The error for a name that is bound nowhere.
pub fn unbound_name(name: &str) -> (e: KyaroError)
    ensures
        e@ == unbound(name@),
{
    let mut message = String::from_str("Undefined variable '");
    push_str(&mut message, name);
    push_str(&mut message, "'");
    KyaroError::runtime(RuntimeKind::UnboundName, message, 0, 0)
}

/// A name that was just bound in a scope resolves, from that scope, to the
/// value it was bound to.
pub proof fn lemma_define_then_get(scopes: Seq<ScopeView>, id: nat, name: Seq<char>, v: Val)
    requires
        id < scopes.len(),
    ensures
        resolve(bind(scopes, id, name, v), id, name) == Some(v),
{
}

/// Binding a name in a scope changes what no other name resolves to, from
/// any scope.
pub proof fn lemma_define_keeps_others(
    scopes: Seq<ScopeView>,
    id: nat,
    name: Seq<char>,
    v: Val,
    from: nat,
    other: Seq<char>,
)
    requires
        id < scopes.len(),
        other != name,
    ensures
        resolve(bind(scopes, id, name, v), from, other) == resolve(scopes, from, other),
    decreases from,
{
    if from < scopes.len() {
        if let Some(p) = scopes[from as int].parent {
            if p < from {
                lemma_define_keeps_others(scopes, id, name, v, p, other);
            }
        }
    }
}

/// Binding a name in a scope changes what is seen from a scope from which
/// that scope cannot be reached: neither that scope itself nor one inside
/// it. Scopes inside a scope come after it, so every scope before `id` is
/// such a scope.
pub proof fn lemma_define_is_local(
    scopes: Seq<ScopeView>,
    id: nat,
    name: Seq<char>,
    v: Val,
    from: nat,
    any: Seq<char>,
)
    requires
        id < scopes.len(),
        from < id,
    ensures
        resolve(bind(scopes, id, name, v), from, any) == resolve(scopes, from, any),
    decreases from,
{
    if let Some(p) = scopes[from as int].parent {
        if p < from {
            lemma_define_is_local(scopes, id, name, v, p, any);
        }
    }
}

/// A name that was given a new value by `set` resolves to that value from
/// the scope where it was set.
pub proof fn lemma_set_then_get(scopes: Seq<ScopeView>, from: nat, name: Seq<char>, v: Val)
    requires
        binder(scopes, from, name) is Some,
    ensures
        resolve(bind(scopes, binder(scopes, from, name)->0, name, v), from, name) == Some(v),
    decreases from,
{
    if from < scopes.len() && !scopes[from as int].bindings.contains_key(name) {
        if let Some(p) = scopes[from as int].parent {
            if p < from {
                lemma_set_then_get(scopes, p, name, v);
                lemma_binder_is_outside(scopes, p, name);
            }
        }
    }
}

/// The scope that binds a name seen from a scope is that scope or an
/// earlier one, and it does bind the name; a name resolves where it has a
/// binder.
pub proof fn lemma_binder_is_outside(scopes: Seq<ScopeView>, from: nat, name: Seq<char>)
    ensures
        binder(scopes, from, name) matches Some(id) ==> id <= from && id < scopes.len()
            && scopes[id as int].bindings.contains_key(name),
        binder(scopes, from, name) is Some <==> resolve(scopes, from, name) is Some,
    decreases from,
{
    if from < scopes.len() && !scopes[from as int].bindings.contains_key(name) {
        if let Some(p) = scopes[from as int].parent {
            if p < from {
                lemma_binder_is_outside(scopes, p, name);
            }
        }
    }
}

} // verus!
