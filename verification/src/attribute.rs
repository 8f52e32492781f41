//! The attribute system: per-entity attribute records with defaults,
//! requiredness and diagnostics, and the keyed attribute model an analyser
//! declares and instantiates.
use vstd::prelude::*;
use crate::ast::Span;
use crate::diagnostic::{appended_one, emit, Diagnostic, Severity};
use crate::utility::{chars_eq, push_chars, push_str_chars};

verus! {

/// What an attribute yields when it was never assigned: a default value, or
/// a diagnostic message demanding an assignment.
pub enum DefaultOrRequired<T> {
    Default(T),
    Required(Vec<char>),
}

/// Holds when the two records demand the same fallback behaviour.
pub open spec fn same_default<T>(a: DefaultOrRequired<T>, b: DefaultOrRequired<T>) -> bool {
    match (a, b) {
        (DefaultOrRequired::Default(x), DefaultOrRequired::Default(y)) => x == y,
        (DefaultOrRequired::Required(m), DefaultOrRequired::Required(n)) => m@ == n@,
        _ => false,
    }
}

/// One attribute record: the assigned value if any, the span of the last
/// assignment, and the behaviour when no value was assigned.
pub struct AttributeInfo<A> {
    pub value: Option<A>,
    pub span: Span,
    pub default: DefaultOrRequired<A>,
}

impl<A> AttributeInfo<A> {
    /// True exactly when a value has been assigned.
    pub fn has_value(&self) -> (r: bool)
        ensures
            r == (self.value is Some),
    {
        self.value.is_some()
    }

    /// Assigns a value; a later assignment wins over an earlier one.
    pub fn set(&mut self, value: A, span: Span)
        ensures
            final(self).value == Some(value),
            final(self).span == span,
            final(self).default == old(self).default,
    {
        self.value = Some(value);
        self.span = span;
    }
}

impl<A: Copy> AttributeInfo<A> {
    /// The stored value; if none was assigned, the default, or — for a
    /// required attribute — no value and an error diagnostic carrying the
    /// required-message.
    pub fn value(&self, diags: &mut Vec<Diagnostic>) -> (r: Option<A>)
        ensures
            self.value is Some ==> r == self.value && final(diags)@ == old(diags)@,
            self.value is None && self.default is Default ==> r == Some(self.default->Default_0)
                && final(diags)@ == old(diags)@,
            self.value is None && self.default is Required ==> r is None && appended_one(
                old(diags)@,
                final(diags)@,
                Severity::Error,
                self.span,
                self.default->Required_0@,
            ),
    {
        match (&self.value, &self.default) {
            (Option::None, DefaultOrRequired::Required(err)) => {
                let mut msg: Vec<char> = Vec::new();
                push_chars(&mut msg, err);
                emit(diags, Severity::Error, self.span, msg);
                Option::None
            },
            (Option::None, DefaultOrRequired::Default(val)) => Option::Some(*val),
            (Option::Some(val), _) => Option::Some(*val),
        }
    }
}

/// A boolean attribute record with no value assigned yet.
pub fn bool_attribute(default: DefaultOrRequired<bool>) -> (r: AttributeInfo<bool>)
    ensures
        r.value is None,
        r.span.lo == 0 && r.span.hi == 0,
        r.default == default,
{
    AttributeInfo { value: Option::None, span: Span::dummy(), default }
}

/// One declared attribute of an entity's attribute model: its name, its
/// documentation, and its record. The attributes this system recognizes are
/// presence-only or boolean, so records carry `bool`.
pub struct AttributeEntry {
    pub name: Vec<char>,
    pub doc: Vec<char>,
    pub info: AttributeInfo<bool>,
}

/// Declares an attribute that defaults to "absent".
pub fn declare_attribute(name: Vec<char>, doc: Vec<char>) -> (r: AttributeEntry)
    ensures
        r.name == name,
        r.doc == doc,
        r.info.value is None,
        r.info.default is Default && r.info.default->Default_0 == false,
{
    AttributeEntry { name, doc, info: bool_attribute(DefaultOrRequired::Default(false)) }
}

/// The first entry of the model named `name`, if any.
pub fn find_attribute(arr: &Vec<AttributeEntry>, name: &Vec<char>) -> (r: Option<usize>)
    ensures
        match r {
            Some(i) => i < arr@.len() && arr@[i as int].name@ == name@ && forall|j: int|
                0 <= j < i ==> arr@[j].name@ != name@,
            None => forall|j: int| 0 <= j < arr@.len() ==> arr@[j].name@ != name@,
        },
{
    let mut i: usize = 0;
    while i < arr.len()
        invariant
            i <= arr@.len(),
            forall|j: int| 0 <= j < i ==> arr@[j].name@ != name@,
        decreases arr@.len() - i,
    {
        if chars_eq(&arr[i].name, name) {
            return Option::Some(i);
        }
        i += 1;
    }
    Option::None
}

/// Holds when `after` is `before` with the attribute at `i` assigned at
/// `span`: every other entry is untouched, and entry `i` keeps its name,
/// documentation and default but now holds a value and the new span.
pub open spec fn entry_assigned(
    before: Seq<AttributeEntry>,
    after: Seq<AttributeEntry>,
    i: int,
    span: Span,
) -> bool {
    &&& after.len() == before.len()
    &&& forall|j: int| 0 <= j < before.len() && j != i ==> after[j] == before[j]
    &&& after[i].name@ == before[i].name@
    &&& after[i].doc@ == before[i].doc@
    &&& after[i].info.value == Some(true)
    &&& after[i].info.span == span
    &&& same_default(after[i].info.default, before[i].info.default)
}

/// The message reported for an assignment to an attribute the model does not
/// declare.
pub open spec fn spec_unknown_attr_msg(name: Seq<char>) -> Seq<char> {
    "unknown attribute "@ + name
}

/// The message reported for a second assignment to the same attribute.
pub open spec fn spec_duplicate_attr_msg(name: Seq<char>) -> Seq<char> {
    "duplicate attribute assignment "@ + name
}

/// Assigns the attribute `name` at `span` in the instantiated model.
/// A name the model does not declare is reported as a warning and changes
/// nothing; a second assignment wins (its span is kept) and is reported as a
/// warning, not an error.
pub fn set_attribute(
    arr: &mut Vec<AttributeEntry>,
    name: &Vec<char>,
    span: Span,
    diags: &mut Vec<Diagnostic>,
)
    ensures
        (forall|j: int| 0 <= j < old(arr)@.len() ==> (#[trigger] old(arr)@[j]).name@ != name@)
            ==> final(arr)@ == old(arr)@ && appended_one(
            old(diags)@,
            final(diags)@,
            Severity::Warning,
            span,
            spec_unknown_attr_msg(name@),
        ),
        forall|i: int|
            (0 <= i < old(arr)@.len() && (#[trigger] old(arr)@[i]).name@ == name@ && (forall|
                j: int,
            |
                0 <= j < i ==> old(arr)@[j].name@ != name@)) ==> entry_assigned(
                old(arr)@,
                final(arr)@,
                i,
                span,
            ) && (old(arr)@[i].info.value is None ==> final(diags)@ == old(diags)@) && (old(
                arr,
            )@[i].info.value is Some ==> appended_one(
                old(diags)@,
                final(diags)@,
                Severity::Warning,
                span,
                spec_duplicate_attr_msg(name@),
            )),
{
    match find_attribute(arr, name) {
        Option::Some(i) => {
            let already = arr[i].info.value.is_some();
            if already {
                let mut msg: Vec<char> = Vec::new();
                push_str_chars(&mut msg, "duplicate attribute assignment ");
                push_chars(&mut msg, name);
                emit(diags, Severity::Warning, span, msg);
            }
            let old_default = match &arr[i].info.default {
                DefaultOrRequired::Default(b) => DefaultOrRequired::Default(*b),
                DefaultOrRequired::Required(m) => {
                    let mut c: Vec<char> = Vec::new();
                    push_chars(&mut c, m);
                    DefaultOrRequired::Required(c)
                },
            };
            let mut doc: Vec<char> = Vec::new();
            push_chars(&mut doc, &arr[i].doc);
            let mut nm: Vec<char> = Vec::new();
            push_chars(&mut nm, &arr[i].name);
            let entry = AttributeEntry {
                name: nm,
                doc,
                info: AttributeInfo { value: Option::Some(true), span, default: old_default },
            };
            arr.set(i, entry);
        },
        Option::None => {
            let mut msg: Vec<char> = Vec::new();
            push_str_chars(&mut msg, "unknown attribute ");
            push_chars(&mut msg, name);
            emit(diags, Severity::Warning, span, msg);
        },
    }
}

} // verus!
