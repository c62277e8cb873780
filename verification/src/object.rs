//! Handles, objects and the pool that owns them.

use vstd::prelude::*;
use vstd::hash_map::StringHashMap;
use crate::eval::{Lambda, LambdaView, Number, RootObject, Void};
use crate::text::{lines, lines_text};

verus! {

/// A handle to an object of a pool. Two handles are equal when they name the same object.
#[derive(Debug, Clone, Copy, PartialEq, Eq, Structural)]
pub enum ObjectRef {
    Normal(usize),
    Special(usize),
}

/// The native payload of an object.
#[derive(Debug, Clone, Copy, PartialEq, Eq, Structural)]
pub enum Metadata {
    NumericValue(i64),
    Nothing,
}

/// Why an evaluation stopped.
#[derive(Debug, Clone, Copy, PartialEq, Eq, Structural)]
pub enum EvalError {
    /// No object along the chain of prototypes handles the message.
    UnknownMessage,
    /// The arguments are not the ones that the built-in operation takes.
    InvalidSignature,
    /// A definition on an object that is not extensible.
    IllegalDefinition,
    /// An argument lacks the payload that the built-in operation needs.
    TypeMismatch,
    /// A block without statements, or a send without messages.
    EmptyBlock,
    /// Calls are nested more deeply than the limit allows.
    DepthExceeded,
}

/// A message whose arguments have been evaluated to handles.
#[derive(Debug)]
pub struct EvaluatedMessage {
    pub name: String,
    pub arguments: Vec<(String, ObjectRef)>,
}

/// The mathematical value of an [`EvaluatedMessage`].
pub struct EvaluatedMessageView {
    pub name: Seq<char>,
    pub arguments: Seq<(Seq<char>, ObjectRef)>,
}

/// The mathematical value of a list of evaluated arguments.
pub open spec fn arguments_view(arguments: Seq<(String, ObjectRef)>) -> Seq<(Seq<char>, ObjectRef)> {
    Seq::new(arguments.len(), |i: int| (arguments[i].0@, arguments[i].1))
}

impl View for EvaluatedMessage {
    type V = EvaluatedMessageView;

    open spec fn view(&self) -> EvaluatedMessageView {
        EvaluatedMessageView { name: self.name@, arguments: arguments_view(self.arguments@) }
    }
}

/// The object that takes over a message from a normal object.
#[derive(Debug, Clone, Copy, PartialEq, Eq, Structural)]
pub enum Handler {
    /// The object has a property of that name: its value is called.
    Property(ObjectRef),
    /// It has none: the message goes on to the prototype.
    Prototype(ObjectRef),
}

/// An extensible object: a prototype and named properties.
pub struct NormalObject {
    prototype: ObjectRef,
    properties: StringHashMap<ObjectRef>,
}

/// The mathematical value of a [`NormalObject`].
pub struct NormalObjectView {
    pub prototype: ObjectRef,
    pub properties: Map<Seq<char>, ObjectRef>,
}

impl NormalObjectView {
    /// The object that handles a message called `name`.
    pub open spec fn handler(self, name: Seq<char>) -> Handler {
        if self.properties.contains_key(name) {
            Handler::Property(self.properties[name])
        } else {
            Handler::Prototype(self.prototype)
        }
    }

    /// The object with `name` bound to `value`, whatever it was bound to before.
    pub open spec fn define(self, name: Seq<char>, value: ObjectRef) -> NormalObjectView {
        NormalObjectView { prototype: self.prototype, properties: self.properties.insert(name, value) }
    }
}

impl View for NormalObject {
    type V = NormalObjectView;

    closed spec fn view(&self) -> NormalObjectView {
        NormalObjectView { prototype: self.prototype, properties: self.properties@ }
    }
}

impl NormalObject {
    /// A new object without properties that delegates to `prototype`.
    pub fn extending(prototype: ObjectRef) -> (object: NormalObject)
        ensures
            object@ == (NormalObjectView { prototype, properties: Map::empty() }),
    {
        NormalObject { prototype, properties: StringHashMap::new() }
    }

    /// The object that handles a message called `name`: the value of the property of that
    /// name, or else the prototype.
    pub fn get_handler(&self, name: &str) -> (handler: Handler)
        ensures
            handler == self@.handler(name@),
    {
        match self.properties.get(name) {
            Some(value) => Handler::Property(*value),
            None => Handler::Prototype(self.prototype),
        }
    }

    /// Binds `name` to `value`, replacing an earlier binding of that name.
    pub fn define(&mut self, name: String, value: ObjectRef) -> (stored: ObjectRef)
        ensures
            stored == value,
            final(self)@ == old(self)@.define(name@, value),
    {
        self.properties.insert(name, value);
        value
    }
}

/// A native object: one of the kinds that are not extensible.
#[derive(Debug, Clone, Copy)]
pub enum Object<'a> {
    Root(RootObject),
    Void(Void),
    Number(Number),
    Lambda(Lambda<'a>),
}

/// The mathematical value of an [`Object`].
pub enum ObjectView {
    Root,
    Void,
    Number(i64),
    Lambda(LambdaView),
}

impl<'a> View for Object<'a> {
    type V = ObjectView;

    open spec fn view(&self) -> ObjectView {
        match self {
            Object::Root(_) => ObjectView::Root,
            Object::Void(_) => ObjectView::Void,
            Object::Number(number) => ObjectView::Number(number.value),
            Object::Lambda(lambda) => ObjectView::Lambda(lambda@),
        }
    }
}

impl<'a> Object<'a> {
    /// No native object takes a definition.
    pub fn define(&self, name: String, value: ObjectRef) -> (stored: Result<ObjectRef, EvalError>)
        ensures
            stored == Err::<ObjectRef, EvalError>(EvalError::IllegalDefinition),
    {
        Err(EvalError::IllegalDefinition)
    }
}

/// The mathematical value of an [`ObjectPool`]: its objects, oldest first, and the integers
/// printed so far.
pub struct PoolView {
    pub normal_objects: Seq<NormalObjectView>,
    pub special_objects: Seq<ObjectView>,
    pub output: Seq<i64>,
}

impl PoolView {
    /// The pool with the root object alone.
    pub open spec fn initial() -> PoolView {
        PoolView {
            normal_objects: Seq::empty(),
            special_objects: seq![ObjectView::Root],
            output: Seq::empty(),
        }
    }

    /// The handle of the root object.
    pub open spec fn root() -> ObjectRef {
        ObjectRef::Special(0)
    }

    /// `handle` names an object of this pool.
    pub open spec fn contains(self, handle: ObjectRef) -> bool {
        match handle {
            ObjectRef::Normal(index) => index < self.normal_objects.len(),
            ObjectRef::Special(index) => index < self.special_objects.len(),
        }
    }

    /// Every argument of `message` names an object of this pool.
    pub open spec fn accepts(self, message: EvaluatedMessageView) -> bool {
        forall|i: int|
            0 <= i < message.arguments.len() ==> self.contains((#[trigger] message.arguments[i]).1)
    }

    /// `prototype` may stand as the prototype of the normal object at `index`: it is a native
    /// object or an older normal object, so no chain of prototypes comes back to where it began.
    pub open spec fn older(self, prototype: ObjectRef, index: int) -> bool {
        &&& self.contains(prototype)
        &&& prototype matches ObjectRef::Normal(other) ==> other < index
    }

    /// The invariant of a pool: the root object is the native object 0 and the only root; every
    /// handle held by an object names an object of the pool; every prototype is older than the
    /// object that delegates to it; every lambda body is well formed.
    pub open spec fn wf(self) -> bool {
        &&& self.normal_objects.len() <= usize::MAX
        &&& self.special_objects.len() <= usize::MAX
        &&& self.special_objects.len() > 0
        &&& forall|i: int|
            0 <= i < self.special_objects.len() ==> ((#[trigger] self.special_objects[i])
                is Root <==> i == 0)
        &&& forall|i: int|
            0 <= i < self.normal_objects.len() ==> self.older(
                (#[trigger] self.normal_objects[i]).prototype,
                i,
            )
        &&& forall|i: int, name: Seq<char>|
            0 <= i < self.normal_objects.len() && (
            #[trigger] self.normal_objects[i].properties.contains_key(name)) ==> self.contains(
                self.normal_objects[i].properties[name],
            )
        &&& forall|i: int|
            0 <= i < self.special_objects.len() ==> (
            #[trigger] self.special_objects[i] matches ObjectView::Lambda(lambda)
                ==> self.contains(lambda.parent_scope) && lambda.body.well_formed())
    }

    /// `handle` can serve as a scope: it names a normal object or the root.
    pub open spec fn is_scope(handle: ObjectRef) -> bool {
        handle is Normal || handle == PoolView::root()
    }

    /// Every chain of prototypes in the pool ends at the root, and so does the chain of every
    /// scope that a lambda has captured: normal objects extend normal objects or the root, and
    /// lambdas capture normal objects or the root.
    pub open spec fn grounded(self) -> bool {
        &&& forall|i: int|
            0 <= i < self.normal_objects.len() ==> PoolView::is_scope(
                (#[trigger] self.normal_objects[i]).prototype,
            )
        &&& forall|i: int|
            0 <= i < self.special_objects.len() ==> (
            #[trigger] self.special_objects[i] matches ObjectView::Lambda(lambda)
                ==> PoolView::is_scope(lambda.parent_scope))
    }

    /// `object` fits this pool: if it is a lambda, it captures a scope of this pool and has a
    /// well-formed body.
    pub open spec fn fits(self, object: ObjectView) -> bool {
        object matches ObjectView::Lambda(lambda) ==> self.contains(lambda.parent_scope)
            && lambda.body.well_formed()
    }

    /// `object` may join the pool as a native object: it fits and is no second root.
    pub open spec fn admits(self, object: ObjectView) -> bool {
        self.fits(object) && !(object is Root)
    }

    /// The payload of the object that `handle` names.
    pub open spec fn metadata(self, handle: ObjectRef) -> Metadata {
        match handle {
            ObjectRef::Special(index) => match self.special_objects[index as int] {
                ObjectView::Number(value) => Metadata::NumericValue(value),
                _ => Metadata::Nothing,
            },
            ObjectRef::Normal(_) => Metadata::Nothing,
        }
    }

    /// The pool after a new normal object that extends `prototype` has joined it, and the handle
    /// of that object.
    pub open spec fn create(self, prototype: ObjectRef) -> (PoolView, ObjectRef) {
        (
            PoolView {
                normal_objects: self.normal_objects.push(
                    NormalObjectView { prototype, properties: Map::empty() },
                ),
                ..self
            },
            ObjectRef::Normal(self.normal_objects.len() as usize),
        )
    }

    /// The pool after a new native object has joined it, and the handle of that object.
    pub open spec fn adopt(self, object: ObjectView) -> (PoolView, ObjectRef) {
        (
            PoolView { special_objects: self.special_objects.push(object), ..self },
            ObjectRef::Special(self.special_objects.len() as usize),
        )
    }

    /// What has been written to the standard output: each integer that was printed on a line of
    /// its own, in decimal notation.
    pub open spec fn printed(self) -> Seq<char> {
        lines_text(self.output)
    }

    /// The pool after `value` has been printed.
    pub open spec fn print(self, value: i64) -> PoolView {
        PoolView { output: self.output.push(value), ..self }
    }

    /// What defining `name` as `value` on `receiver` does: a normal object takes the binding, in
    /// place of an earlier one of that name; any other object refuses.
    pub open spec fn define(self, receiver: ObjectRef, name: Seq<char>, value: ObjectRef) -> (
        PoolView,
        Result<ObjectRef, EvalError>,
    ) {
        match receiver {
            ObjectRef::Normal(index) => (
                PoolView {
                    normal_objects: self.normal_objects.update(
                        index as int,
                        self.normal_objects[index as int].define(name, value),
                    ),
                    ..self
                },
                Ok(value),
            ),
            ObjectRef::Special(_) => (self, Err(EvalError::IllegalDefinition)),
        }
    }

    /// This pool has grown out of `earlier`: it holds the same objects under the same handles,
    /// and possibly more; the native objects and the prototypes are unchanged; no property has
    /// been removed; what was printed then is the beginning of what is printed now.
    pub open spec fn extends(self, earlier: PoolView) -> bool {
        &&& earlier.normal_objects.len() <= self.normal_objects.len()
        &&& earlier.special_objects.len() <= self.special_objects.len()
        &&& earlier.output.len() <= self.output.len()
        &&& forall|i: int|
            0 <= i < earlier.special_objects.len() ==> #[trigger] self.special_objects[i]
                == earlier.special_objects[i]
        &&& forall|i: int|
            0 <= i < earlier.normal_objects.len() ==> (#[trigger] self.normal_objects[i]).prototype
                == earlier.normal_objects[i].prototype
        &&& forall|i: int, name: Seq<char>|
            0 <= i < earlier.normal_objects.len() && (
            #[trigger] earlier.normal_objects[i].properties.contains_key(name))
                ==> self.normal_objects[i].properties.contains_key(name)
        &&& forall|i: int| 0 <= i < earlier.output.len() ==> #[trigger] self.output[i] == earlier.output[i]
    }
}

impl ObjectRef {
    /// Puts a native object into the pool and returns its handle.
    pub fn new<'a>(pool: &mut ObjectPool<'a>, object: Object<'a>) -> (handle: ObjectRef)
        requires
            old(pool)@.wf(),
            old(pool)@.admits(object@),
        ensures
            (final(pool)@, handle) == old(pool)@.adopt(object@),
            final(pool)@.wf(),
            final(pool)@.extends(old(pool)@),
            final(pool)@.contains(handle),
    {
        pool.special_objects.push(object);
        let handle = ObjectRef::Special(pool.special_objects.len() - 1);
        assert(pool@.special_objects =~= old(pool)@.special_objects.push(object@));
        handle
    }
}

/// Growth composes: what has grown out of a pool that has grown out of `first` has grown out of
/// `first`.
pub proof fn lemma_extends_transitive(first: PoolView, second: PoolView, third: PoolView)
    requires
        second.extends(first),
        third.extends(second),
    ensures
        third.extends(first),
{
}

/// The arena that owns every object of a run, and the record of what the run has printed.
pub struct ObjectPool<'a> {
    normal_objects: Vec<NormalObject>,
    special_objects: Vec<Object<'a>>,
    output: Vec<i64>,
}

impl<'a> View for ObjectPool<'a> {
    type V = PoolView;

    closed spec fn view(&self) -> PoolView {
        PoolView {
            normal_objects: Seq::new(self.normal_objects@.len(), |i: int| self.normal_objects@[i]@),
            special_objects: Seq::new(
                self.special_objects@.len(),
                |i: int| self.special_objects@[i]@,
            ),
            output: self.output@,
        }
    }
}

impl<'a> ObjectPool<'a> {
    /// A pool that holds the root object and nothing else.
    pub fn new() -> (pool: ObjectPool<'a>)
        ensures
            pool@ == PoolView::initial(),
            pool@.wf(),
    {
        let mut special_objects: Vec<Object<'a>> = Vec::new();
        special_objects.push(Object::Root(RootObject {  }));
        let pool = ObjectPool { normal_objects: Vec::new(), special_objects, output: Vec::new() };
        assert(pool@.special_objects =~= seq![ObjectView::Root]);
        assert(pool@.normal_objects =~= Seq::empty());
        pool
    }

    /// The handle of the root object.
    pub fn root(&self) -> (handle: ObjectRef)
        ensures
            handle == PoolView::root(),
    {
        ObjectRef::Special(0)
    }

    /// Whether `handle` names an object of this pool.
    pub fn contains(&self, handle: ObjectRef) -> (found: bool)
        ensures
            found == self@.contains(handle),
    {
        match handle {
            ObjectRef::Normal(index) => index < self.normal_objects.len(),
            ObjectRef::Special(index) => index < self.special_objects.len(),
        }
    }

    /// The integers printed so far, oldest first.
    pub fn output(&self) -> (printed: &Vec<i64>)
        ensures
            printed@ == self@.output,
    {
        &self.output
    }

    /// The text printed so far: one integer to a line, in decimal notation.
    pub fn printed(&self) -> (text: String)
        ensures
            text@ == self@.printed(),
    {
        lines(&self.output)
    }

    /// The normal object at `index`.
    pub fn normal_object(&self, index: usize) -> (object: &NormalObject)
        requires
            index < self@.normal_objects.len(),
        ensures
            object@ == self@.normal_objects[index as int],
    {
        &self.normal_objects[index]
    }

    /// The native object at `index`.
    pub fn special_object(&self, index: usize) -> (object: Object<'a>)
        requires
            index < self@.special_objects.len(),
        ensures
            object@ == self@.special_objects[index as int],
    {
        self.special_objects[index]
    }

    /// The payload of the object that `handle` names: the integer of a number, and nothing for
    /// any other object.
    pub fn metadata(&self, handle: ObjectRef) -> (payload: Metadata)
        requires
            self@.contains(handle),
        ensures
            payload == self@.metadata(handle),
    {
        match handle {
            ObjectRef::Special(index) => match self.special_objects[index] {
                Object::Number(number) => Metadata::NumericValue(number.value),
                _ => Metadata::Nothing,
            },
            ObjectRef::Normal(_) => Metadata::Nothing,
        }
    }

    /// Appends `value` to the record of what was printed.
    pub fn write_line(&mut self, value: i64)
        requires
            old(self)@.wf(),
        ensures
            final(self)@ == old(self)@.print(value),
            final(self)@.wf(),
            final(self)@.extends(old(self)@),
    {
        self.output.push(value);
    }

    /// Allocates a normal object that extends `prototype`.
    pub fn create(&mut self, prototype: ObjectRef) -> (handle: ObjectRef)
        requires
            old(self)@.wf(),
            old(self)@.contains(prototype),
        ensures
            (final(self)@, handle) == old(self)@.create(prototype),
            final(self)@.wf(),
            final(self)@.extends(old(self)@),
            final(self)@.contains(handle),
    {
        let object = NormalObject::extending(prototype);
        self.normal_objects.push(object);
        let handle = ObjectRef::Normal(self.normal_objects.len() - 1);
        assert(self@.normal_objects =~= old(self)@.normal_objects.push(
            NormalObjectView { prototype, properties: Map::empty() },
        ));
        handle
    }

    /// Defines or redefines the property `name` of `receiver`. Only a normal object takes a
    /// definition.
    pub fn define(&mut self, receiver: ObjectRef, name: String, value: ObjectRef) -> (stored: Result<
        ObjectRef,
        EvalError,
    >)
        requires
            old(self)@.wf(),
            old(self)@.contains(receiver),
            old(self)@.contains(value),
        ensures
            (final(self)@, stored) == old(self)@.define(receiver, name@, value),
            final(self)@.wf(),
            final(self)@.extends(old(self)@),
    {
        match receiver {
            ObjectRef::Normal(index) => {
                let stored = self.normal_objects[index].define(name, value);
                assert(self@.normal_objects =~= old(self)@.normal_objects.update(
                    index as int,
                    old(self)@.normal_objects[index as int].define(name@, value),
                ));
                Ok(stored)
            },
            ObjectRef::Special(index) => self.special_objects[index].define(name, value),
        }
    }
}

} // verus!
