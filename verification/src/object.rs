//! Runtime values and the environment: what evaluation produces, and the
//! chained scopes in which names are bound.

use vstd::prelude::*;
use crate::ast::{
    block_view, clone_block, clone_identifiers, identifiers_view, SpecBlock, SpecIdentifier,
};
use crate::token::{BlockStatement, Identifier};

verus! {

#[derive(Debug, PartialEq)]
pub enum MonkeyObject {
    INTEGER(Integer),
    BOOLEAN(Bool),
    NULL(Null),
    BLOCK(Block),
    RETURN(ReturnValue),
    FUNCTION(Function),
}

/// A 64-bit integer with a sign.
#[derive(Debug, PartialEq)]
pub struct Integer {
    pub value: i64,
}

#[derive(Debug, PartialEq)]
pub struct Bool {
    pub value: bool,
}

/// The absence of a value.
#[derive(Debug, PartialEq)]
pub struct Null {

}

/// The values of the statements of a block that ran to its end.
#[derive(Debug, PartialEq)]
pub struct Block {
    pub statements: Vec<MonkeyObject>,
}

/// The signal that a `return` was executed, with the value to return. It
/// travels outward to the call that it ends.
#[derive(Debug, PartialEq)]
pub struct ReturnValue {
    pub value: Box<MonkeyObject>,
}

/// A function value: its parameters, its body, and the scope in which it
/// was made, by the scope's handle.
#[derive(Debug, PartialEq)]
pub struct Function {
    pub params: Vec<Identifier>,
    pub body: BlockStatement,
    pub env: usize,
}

/// The mathematical value of a [`MonkeyObject`].
pub enum SpecObject {
    Integer(i64),
    Boolean(bool),
    Null,
    Block(Seq<SpecObject>),
    Return(Box<SpecObject>),
    Function { parameters: Seq<SpecIdentifier>, body: SpecBlock, env: nat },
}

#[verifier::opaque]
pub open spec fn object_view(o: MonkeyObject) -> SpecObject
    decreases o,
{
    match o {
        MonkeyObject::INTEGER(x) => SpecObject::Integer(x.value),
        MonkeyObject::BOOLEAN(x) => SpecObject::Boolean(x.value),
        MonkeyObject::NULL(_) => SpecObject::Null,
        MonkeyObject::BLOCK(x) => SpecObject::Block(objects_view(x.statements@)),
        MonkeyObject::RETURN(x) => SpecObject::Return(Box::new(object_view(*x.value))),
        MonkeyObject::FUNCTION(x) => SpecObject::Function {
            parameters: identifiers_view(x.params@),
            body: block_view(x.body),
            env: x.env as nat,
        },
    }
}

#[verifier::opaque]
pub open spec fn objects_view(v: Seq<MonkeyObject>) -> Seq<SpecObject>
    decreases v,
{
    Seq::new(
        v.len(),
        |i: int|
            if 0 <= i < v.len() {
                object_view(v[i])
            } else {
                arbitrary()
            },
    )
}

impl View for MonkeyObject {
    type V = SpecObject;

    open spec fn view(&self) -> SpecObject {
        object_view(*self)
    }
}

/// The view of a value, in terms of the views of its parts.
pub proof fn lemma_object_view(o: MonkeyObject)
    ensures
        o@ == match o {
            MonkeyObject::INTEGER(x) => SpecObject::Integer(x.value),
            MonkeyObject::BOOLEAN(x) => SpecObject::Boolean(x.value),
            MonkeyObject::NULL(_) => SpecObject::Null,
            MonkeyObject::BLOCK(x) => SpecObject::Block(objects_view(x.statements@)),
            MonkeyObject::RETURN(x) => SpecObject::Return(Box::new((*x.value)@)),
            MonkeyObject::FUNCTION(x) => SpecObject::Function {
                parameters: identifiers_view(x.params@),
                body: block_view(x.body),
                env: x.env as nat,
            },
        },
{
    reveal(object_view);
    reveal(objects_view);
}

/// The view of a list of values is the list of their views.
pub proof fn lemma_objects_view(v: Seq<MonkeyObject>)
    ensures
        objects_view(v).len() == v.len(),
        forall|i: int| 0 <= i < v.len() ==> (#[trigger] objects_view(v)[i]) == v[i]@,
{
    reveal(objects_view);
    reveal(object_view);
}

/// The view of a list of values with one more at its end.
pub proof fn lemma_objects_view_push(v: Seq<MonkeyObject>, o: MonkeyObject)
    ensures
        objects_view(v.push(o)) == objects_view(v).push(o@),
{
    lemma_objects_view(v);
    lemma_objects_view(v.push(o));
    assert(objects_view(v.push(o)) =~= objects_view(v).push(o@));
}

/// The view of no values.
pub proof fn lemma_objects_view_empty()
    ensures
        objects_view(Seq::empty()) == Seq::<SpecObject>::empty(),
{
    lemma_objects_view(Seq::empty());
    assert(objects_view(Seq::empty()) =~= Seq::<SpecObject>::empty());
}

impl Integer {
    pub fn new(val: i64) -> (r: Integer)
        ensures
            r.value == val,
    {
        Integer { value: val }
    }
}

impl Bool {
    pub fn new(val: bool) -> (r: Bool)
        ensures
            r.value == val,
    {
        Bool { value: val }
    }
}

impl ReturnValue {
    pub fn new(value: Box<MonkeyObject>) -> (r: ReturnValue)
        ensures
            r.value == value,
    {
        ReturnValue { value: value }
    }
}

impl Function {
    pub fn new(params: Vec<Identifier>, body: BlockStatement, env: usize) -> (r: Function)
        ensures
            r.params == params,
            r.body == body,
            r.env == env,
    {
        Function { params: params, body: body, env: env }
    }
}

impl MonkeyObject {
    /// The integer `value`.
    pub fn integer(value: i64) -> (r: MonkeyObject)
        ensures
            r@ == SpecObject::Integer(value),
    {
        let r = MonkeyObject::INTEGER(Integer::new(value));
        proof {
            lemma_object_view(r);
        }
        r
    }

    /// The truth value `value`.
    pub fn boolean(value: bool) -> (r: MonkeyObject)
        ensures
            r@ == SpecObject::Boolean(value),
    {
        let r = MonkeyObject::BOOLEAN(Bool::new(value));
        proof {
            lemma_object_view(r);
        }
        r
    }

    /// The absent value.
    pub fn null() -> (r: MonkeyObject)
        ensures
            r@ == SpecObject::Null,
    {
        let r = MonkeyObject::NULL(Null {  });
        proof {
            lemma_object_view(r);
        }
        r
    }

    /// The values of a block that ran to its end.
    pub fn block(values: Vec<MonkeyObject>) -> (r: MonkeyObject)
        ensures
            r@ == SpecObject::Block(objects_view(values@)),
    {
        let r = MonkeyObject::BLOCK(Block { statements: values });
        proof {
            lemma_object_view(r);
        }
        r
    }

    /// The signal to return `value`.
    pub fn returning(value: MonkeyObject) -> (r: MonkeyObject)
        ensures
            r@ == SpecObject::Return(Box::new(value@)),
    {
        let r = MonkeyObject::RETURN(ReturnValue::new(Box::new(value)));
        proof {
            lemma_object_view(r);
        }
        r
    }

    /// The function with these parameters and this body, made in the scope
    /// `env`.
    pub fn function(params: Vec<Identifier>, body: BlockStatement, env: usize) -> (r:
        MonkeyObject)
        ensures
            r@ == (SpecObject::Function {
                parameters: identifiers_view(params@),
                body: body@,
                env: env as nat,
            }),
    {
        let r = MonkeyObject::FUNCTION(Function::new(params, body, env));
        proof {
            lemma_object_view(r);
        }
        r
    }
}

pub fn clone_object(o: &MonkeyObject) -> (r: MonkeyObject)
    ensures
        r@ == o@,
    decreases *o,
{
    proof {
        lemma_object_view(*o);
    }
    match o {
        MonkeyObject::INTEGER(x) => MonkeyObject::integer(x.value),
        MonkeyObject::BOOLEAN(x) => MonkeyObject::boolean(x.value),
        MonkeyObject::NULL(_) => MonkeyObject::null(),
        MonkeyObject::BLOCK(x) => MonkeyObject::block(clone_objects(&x.statements)),
        MonkeyObject::RETURN(x) => MonkeyObject::returning(clone_object(&x.value)),
        MonkeyObject::FUNCTION(x) => MonkeyObject::function(
            clone_identifiers(&x.params),
            clone_block(&x.body),
            x.env,
        ),
    }
}

pub fn clone_objects(v: &Vec<MonkeyObject>) -> (r: Vec<MonkeyObject>)
    ensures
        objects_view(r@) == objects_view(v@),
    decreases *v,
{
    let mut out: Vec<MonkeyObject> = Vec::new();
    let mut i: usize = 0;
    while i < v.len()
        invariant
            i <= v.len(),
            out@.len() == i,
            forall|j: int| 0 <= j < i ==> out@[j]@ == v@[j]@,
        decreases v.len() - i,
    {
        out.push(clone_object(&v[i]));
        i += 1;
    }
    proof {
        lemma_objects_view(out@);
        lemma_objects_view(v@);
        assert(objects_view(out@) =~= objects_view(v@));
    }
    out
}

impl Clone for MonkeyObject {
    fn clone(&self) -> (r: Self)
        ensures
            r@ == self@,
    {
        clone_object(self)
    }
}

/// One scope of the model: the values bound in it by name, and the handle
/// of the scope that encloses it, if one does.
pub struct SpecScope {
    pub store: Map<Seq<char>, SpecObject>,
    pub outer: Option<nat>,
}

/// The bindings that a list of pairs of a name and a value makes: where a
/// name occurs more than once, its last pair counts.
pub open spec fn bindings_view(v: Seq<(String, MonkeyObject)>) -> Map<Seq<char>, SpecObject>
    decreases v.len(),
{
    if v.len() == 0 {
        Map::empty()
    } else {
        bindings_view(v.drop_last()).insert(v.last().0@, v.last().1@)
    }
}

/// One scope: its bindings and the handle of the scope that encloses it.
#[derive(Debug, PartialEq)]
pub struct Scope {
    pub store: Vec<(String, MonkeyObject)>,
    pub outer: Option<usize>,
}

impl View for Scope {
    type V = SpecScope;

    open spec fn view(&self) -> SpecScope {
        SpecScope {
            store: bindings_view(self.store@),
            outer: match self.outer {
                Some(o) => Some(o as nat),
                None => None,
            },
        }
    }
}

/// All the scopes of one run. A scope is named by its handle, the index at
/// which it was made; the first scope, with handle 0, is the global one.
/// Scopes are never removed, so a function value keeps the scope it was
/// made in.
#[derive(Debug, PartialEq)]
pub struct Environment {
    pub scopes: Vec<Scope>,
}

impl View for Environment {
    type V = Seq<SpecScope>;

    open spec fn view(&self) -> Seq<SpecScope> {
        Seq::new(self.scopes@.len(), |i: int| self.scopes@[i]@)
    }
}

/// The value bound to `key` as seen from `scope`: the binding in the scope
/// itself or else in the nearest enclosing scope that has one. A link to an
/// enclosing scope counts only if it leads to an older scope.
pub open spec fn lookup(scopes: Seq<SpecScope>, scope: nat, key: Seq<char>) -> Option<SpecObject>
    decreases scope,
{
    if scope >= scopes.len() {
        None
    } else if scopes[scope as int].store.contains_key(key) {
        Some(scopes[scope as int].store[key])
    } else {
        match scopes[scope as int].outer {
            Some(o) => if o < scope {
                lookup(scopes, o, key)
            } else {
                None
            },
            None => None,
        }
    }
}

/// The scopes after `key` is bound to `value` in `scope`. No other scope
/// changes; a handle that names no scope changes nothing.
pub open spec fn bind(scopes: Seq<SpecScope>, scope: nat, key: Seq<char>, value: SpecObject) -> Seq<
    SpecScope,
> {
    if scope < scopes.len() {
        scopes.update(
            scope as int,
            SpecScope {
                store: scopes[scope as int].store.insert(key, value),
                outer: scopes[scope as int].outer,
            },
        )
    } else {
        scopes
    }
}

/// The last pair with a given name decides what the name is bound to.
pub proof fn lemma_bindings_last(v: Seq<(String, MonkeyObject)>, i: int, key: Seq<char>)
    requires
        0 <= i < v.len(),
        v[i].0@ == key,
        forall|j: int| i < j < v.len() ==> (#[trigger] v[j]).0@ != key,
    ensures
        bindings_view(v).contains_key(key),
        bindings_view(v)[key] == v[i].1@,
    decreases v.len(),
{
    if i < v.len() - 1 {
        assert(v.last() == v[v.len() - 1]);
        lemma_bindings_last(v.drop_last(), i, key);
    }
}

/// A name that no pair has is not bound.
pub proof fn lemma_bindings_absent(v: Seq<(String, MonkeyObject)>, key: Seq<char>)
    requires
        forall|j: int| 0 <= j < v.len() ==> (#[trigger] v[j]).0@ != key,
    ensures
        !bindings_view(v).contains_key(key),
    decreases v.len(),
{
    if v.len() > 0 {
        assert(v.last() == v[v.len() - 1]);
        lemma_bindings_absent(v.drop_last(), key);
    }
}

/// To replace the value of the last pair with a given name is to bind the
/// name anew.
pub proof fn lemma_bindings_update(
    v: Seq<(String, MonkeyObject)>,
    i: int,
    name: String,
    value: MonkeyObject,
)
    requires
        0 <= i < v.len(),
        v[i].0@ == name@,
        forall|j: int| i < j < v.len() ==> (#[trigger] v[j]).0@ != name@,
    ensures
        bindings_view(v.update(i, (name, value))) == bindings_view(v).insert(name@, value@),
    decreases v.len(),
{
    let w = v.update(i, (name, value));
    if i == v.len() - 1 {
        assert(w.drop_last() =~= v.drop_last());
        assert(bindings_view(w) =~= bindings_view(v).insert(name@, value@));
    } else {
        assert(v.last() == v[v.len() - 1]);
        assert(w.drop_last() =~= v.drop_last().update(i, (name, value)));
        lemma_bindings_update(v.drop_last(), i, name, value);
        assert(bindings_view(w) =~= bindings_view(v).insert(name@, value@));
    }
}

/// The index of the last pair named `key`, if there is one.
pub fn find_binding(store: &Vec<(String, MonkeyObject)>, key: &String) -> (r: Option<usize>)
    ensures
        match r {
            Some(i) => i < store@.len() && store@[i as int].0@ == key@ && forall|j: int|
                i < j < store@.len() ==> (#[trigger] store@[j]).0@ != key@,
            None => forall|j: int| 0 <= j < store@.len() ==> (#[trigger] store@[j]).0@ != key@,
        },
{
    let mut i: usize = store.len();
    while i > 0
        invariant
            i <= store@.len(),
            forall|j: int| i <= j < store@.len() ==> (#[trigger] store@[j]).0@ != key@,
        decreases i,
    {
        i -= 1;
        if store[i].0 == *key {
            return Some(i);
        }
    }
    None
}

impl Environment {
    /// The scopes of a new run: the global scope alone, with nothing bound.
    pub fn new() -> (r: Environment)
        ensures
            r@ == seq![SpecScope { store: Map::empty(), outer: None }],
    {
        let mut scopes: Vec<Scope> = Vec::new();
        scopes.push(Scope { store: Vec::new(), outer: None });
        let r = Environment { scopes: scopes };
        assert(r@ =~= seq![SpecScope { store: Map::empty(), outer: None }]);
        r
    }

    /// Makes a scope with the bindings `store`, enclosed by the scope
    /// `env`, and returns its handle.
    pub fn new_enclosed_evironment(&mut self, store: Vec<(String, MonkeyObject)>, env: usize) -> (r:
        usize)
        ensures
            r == old(self)@.len(),
            final(self)@ == old(self)@.push(
                SpecScope { store: bindings_view(store@), outer: Some(env as nat) },
            ),
    {
        let handle = self.scopes.len();
        self.scopes.push(Scope { store: store, outer: Some(env) });
        assert(self@ =~= old(self)@.push(
            SpecScope { store: bindings_view(store@), outer: Some(env as nat) },
        ));
        handle
    }

    /// The value bound to `key` as seen from `scope`, if there is one.
    pub fn get(&self, scope: usize, key: &String) -> (r: Option<MonkeyObject>)
        ensures
            match lookup(self@, scope as nat, key@) {
                Some(v) => r is Some && r->Some_0@ == v,
                None => r is None,
            },
    {
        let mut current: usize = scope;
        loop
            invariant
                lookup(self@, current as nat, key@) == lookup(self@, scope as nat, key@),
            decreases current,
        {
            if current >= self.scopes.len() {
                return None;
            }
            let found = find_binding(&self.scopes[current].store, key);
            match found {
                Some(i) => {
                    proof {
                        lemma_bindings_last(self.scopes@[current as int].store@, i as int, key@);
                    }
                    return Some(clone_object(&self.scopes[current].store[i].1));
                },
                None => {
                    proof {
                        lemma_bindings_absent(self.scopes@[current as int].store@, key@);
                    }
                    match self.scopes[current].outer {
                        Some(o) => {
                            if o < current {
                                current = o;
                            } else {
                                return None;
                            }
                        },
                        None => {
                            return None;
                        },
                    }
                },
            }
        }
    }

    /// Binds `key` to `value` in `scope`, in place of what `key` was bound
    /// to there, if anything. The enclosing scopes are left as they are.
    pub fn set(&mut self, scope: usize, key: String, value: MonkeyObject)
        ensures
            final(self)@ == bind(old(self)@, scope as nat, key@, value@),
    {
        if scope < self.scopes.len() {
            let ghost before = self.scopes@[scope as int].store@;
            let found = find_binding(&self.scopes[scope].store, &key);
            match found {
                Some(i) => {
                    proof {
                        lemma_bindings_update(before, i as int, key, value);
                    }
                    self.scopes[scope].store[i] = (key, value);
                    assert(self.scopes@[scope as int].store@ == before.update(
                        i as int,
                        (key, value),
                    ));
                },
                None => {
                    self.scopes[scope].store.push((key, value));
                    assert(self.scopes@[scope as int].store@ == before.push((key, value)));
                    assert(before.push((key, value)).drop_last() =~= before);
                },
            }
            assert(self.scopes@.len() == old(self).scopes@.len());
            assert(self.scopes@[scope as int].outer == old(self).scopes@[scope as int].outer);
            assert(forall|j: int|
                0 <= j < self.scopes@.len() && j != scope ==> self.scopes@[j] == old(
                    self,
                ).scopes@[j]);
            assert(self.scopes@[scope as int]@.store == bindings_view(before).insert(key@, value@));
            assert(self@ =~= bind(old(self)@, scope as nat, key@, value@));
        }
    }
}

/// The character that writes the digit `d`.
pub open spec fn digit_char(d: nat) -> char
    recommends
        d < 10,
{
    if d == 0 {
        '0'
    } else if d == 1 {
        '1'
    } else if d == 2 {
        '2'
    } else if d == 3 {
        '3'
    } else if d == 4 {
        '4'
    } else if d == 5 {
        '5'
    } else if d == 6 {
        '6'
    } else if d == 7 {
        '7'
    } else if d == 8 {
        '8'
    } else {
        '9'
    }
}

/// The decimal digits of `n`, without leading zeros.
pub open spec fn digits(n: nat) -> Seq<char>
    decreases n,
{
    if n < 10 {
        seq![digit_char(n)]
    } else {
        digits(n / 10).push(digit_char(n % 10))
    }
}

/// How an integer is written: in decimal digits, after a minus sign if it
/// is negative.
pub open spec fn decimal_text(v: int) -> Seq<char> {
    if v < 0 {
        seq!['-'] + digits((-v) as nat)
    } else {
        digits(v as nat)
    }
}

/// The digit `d` as a text of one character.
fn digit_text(d: u64) -> (r: &'static str)
    requires
        d < 10,
    ensures
        r@ == seq![digit_char(d as nat)],
{
    proof {
        reveal_strlit("0");
        reveal_strlit("1");
        reveal_strlit("2");
        reveal_strlit("3");
        reveal_strlit("4");
        reveal_strlit("5");
        reveal_strlit("6");
        reveal_strlit("7");
        reveal_strlit("8");
        reveal_strlit("9");
    }
    let r = if d == 0 {
        "0"
    } else if d == 1 {
        "1"
    } else if d == 2 {
        "2"
    } else if d == 3 {
        "3"
    } else if d == 4 {
        "4"
    } else if d == 5 {
        "5"
    } else if d == 6 {
        "6"
    } else if d == 7 {
        "7"
    } else if d == 8 {
        "8"
    } else {
        "9"
    };
    assert(r@ =~= seq![digit_char(d as nat)]);
    r
}

/// Writes `n` in decimal digits behind what `text` holds.
pub fn append_digits(text: &mut String, n: u64)
    ensures
        final(text)@ == old(text)@ + digits(n as nat),
    decreases n,
{
    if n >= 10 {
        append_digits(text, n / 10);
    }
    let ghost before = text@;
    text.append(digit_text(n % 10));
    proof {
        if n >= 10 {
            assert(before + seq![digit_char((n % 10) as nat)] =~= old(text)@ + digits(n as nat));
        } else {
            assert(before + seq![digit_char(n as nat)] =~= old(text)@ + digits(n as nat));
        }
    }
}

/// Writes an integer as text.
pub fn decimal_string(v: i64) -> (r: String)
    ensures
        r@ == decimal_text(v as int),
{
    let mut text = String::new();
    if v < 0 {
        proof {
            reveal_strlit("-");
        }
        text.append("-");
        assert(text@ =~= seq!['-']);
        let magnitude: u64 = if v == i64::MIN {
            0x8000_0000_0000_0000
        } else {
            (-v) as u64
        };
        append_digits(&mut text, magnitude);
    } else {
        append_digits(&mut text, v as u64);
        assert(text@ =~= digits(v as nat));
    }
    text
}

/// What every runtime value offers: a text that shows it.
pub trait ObjectInterface {
    /// The text that shows the value.
    spec fn shown(&self) -> Seq<char>;

    fn inspect(&self) -> (r: String)
        ensures
            r@ == self.shown(),
    ;
}

/// A runtime value that stands on its own.
pub trait Object: ObjectInterface {

}

impl Object for Integer {

}

impl ObjectInterface for Integer {
    open spec fn shown(&self) -> Seq<char> {
        decimal_text(self.value as int)
    }

    fn inspect(&self) -> (r: String) {
        decimal_string(self.value)
    }
}

impl Object for Bool {

}

impl ObjectInterface for Bool {
    open spec fn shown(&self) -> Seq<char> {
        if self.value {
            "true"@
        } else {
            "false"@
        }
    }

    fn inspect(&self) -> (r: String) {
        if self.value {
            String::from_str("true")
        } else {
            String::from_str("false")
        }
    }
}

impl Object for Null {

}

impl ObjectInterface for Null {
    open spec fn shown(&self) -> Seq<char> {
        "Null"@
    }

    fn inspect(&self) -> (r: String) {
        String::from_str("Null")
    }
}

impl Object for Block {

}

impl ObjectInterface for Block {
    open spec fn shown(&self) -> Seq<char> {
        "Number of Statements in block:"@ + digits(self.statements@.len())
    }

    fn inspect(&self) -> (r: String) {
        let mut text = String::from_str("Number of Statements in block:");
        append_digits(&mut text, self.statements.len() as u64);
        text
    }
}

impl Object for ReturnValue {

}

impl ObjectInterface for ReturnValue {
    open spec fn shown(&self) -> Seq<char> {
        "return"@
    }

    fn inspect(&self) -> (r: String) {
        String::from_str("return")
    }
}

impl Object for Function {

}

impl ObjectInterface for Function {
    open spec fn shown(&self) -> Seq<char> {
        "fn"@
    }

    fn inspect(&self) -> (r: String) {
        String::from_str("fn")
    }
}

impl MonkeyObject {
    /// The text that shows the value: that of the value inside.
    pub open spec fn shown(&self) -> Seq<char> {
        match *self {
            MonkeyObject::INTEGER(x) => x.shown(),
            MonkeyObject::BOOLEAN(x) => x.shown(),
            MonkeyObject::NULL(x) => x.shown(),
            MonkeyObject::BLOCK(x) => x.shown(),
            MonkeyObject::RETURN(x) => x.shown(),
            MonkeyObject::FUNCTION(x) => x.shown(),
        }
    }

    /// The text that shows the value.
    pub fn inspect(&self) -> (r: String)
        ensures
            r@ == self.shown(),
    {
        match self {
            Self::INTEGER(x) => x.inspect(),
            Self::BOOLEAN(x) => x.inspect(),
            Self::NULL(x) => x.inspect(),
            Self::BLOCK(x) => x.inspect(),
            Self::RETURN(x) => x.inspect(),
            Self::FUNCTION(x) => x.inspect(),
        }
    }
}

} // verus!
