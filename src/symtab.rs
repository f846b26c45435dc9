use crate::table::Table;
use vstd::prelude::*;

verus! {

/// The static type of a value, as the type checker sees it.
#[derive(Clone, Copy, Debug, PartialEq, Eq, Structural)]
pub enum Type {
    Int,
    Float,
    Str,
    Bool,
    Char,
    Nil,
    Any,
}

/// The name by which diagnostics show a type.
pub open spec fn display_name(t: Type) -> Seq<char> {
    match t {
        Type::Int => "int"@,
        Type::Float => "float"@,
        Type::Str => "str"@,
        Type::Bool => "bool"@,
        Type::Char => "char"@,
        Type::Nil => "nil"@,
        Type::Any => "any"@,
    }
}

impl Type {
    /// The name by which diagnostics show this type.
    pub fn name(&self) -> (r: &'static str)
        ensures
            r@ == display_name(*self),
    {
        match self {
            Type::Int => "int",
            Type::Float => "float",
            Type::Str => "str",
            Type::Bool => "bool",
            Type::Char => "char",
            Type::Nil => "nil",
            Type::Any => "any",
        }
    }
}

/// The type bound to `name` in the innermost of `frames` that binds it.
pub open spec fn resolve(frames: Seq<Map<Seq<char>, Type>>, name: Seq<char>) -> Option<Type>
    decreases frames.len(),
{
    if frames.len() == 0 {
        None
    } else if frames.last().contains_key(name) {
        Some(frames.last()[name])
    } else {
        resolve(frames.drop_last(), name)
    }
}

/// One lexical scope: its bindings and the nesting depth it was made at.
#[derive(Clone, Debug)]
pub struct Frame {
    pub table: Table<Type>,
    pub depth: usize,
}

impl Frame {
    pub open spec fn wf(&self) -> bool {
        self.table.wf()
    }

    /// An empty scope at `depth`.
    pub fn new(depth: usize) -> (r: Self)
        ensures
            r.wf(),
            r.table@ == Map::<Seq<char>, Type>::empty(),
            r.depth == depth,
    {
        Frame { table: Table::new(), depth }
    }

    /// A scope holding the bindings of `table`.
    pub fn from(table: Table<Type>, depth: usize) -> (r: Self)
        requires
            table.wf(),
        ensures
            r.wf(),
            r.table == table,
            r.depth == depth,
    {
        Frame { table, depth }
    }

    /// The type bound to `name` in this scope.
    pub fn get(&self, name: &String) -> (r: Option<Type>)
        requires
            self.wf(),
        ensures
            r == (if self.table@.contains_key(name@) {
                Some(self.table@[name@])
            } else {
                None
            }),
    {
        match self.table.get(name.as_str()) {
            Some(t) => Some(*t),
            None => None,
        }
    }

    /// Binds `name` to `t` in this scope, replacing an earlier binding of `name`.
    pub fn assign(&mut self, name: String, t: Type)
        requires
            old(self).wf(),
        ensures
            final(self).wf(),
            final(self).table@ == old(self).table@.insert(name@, t),
            final(self).depth == old(self).depth,
    {
        self.table.insert(name, t)
    }
}

/// The scopes of a program under analysis, with method and module registries.
#[derive(Clone, Debug)]
pub struct SymTab {
    stack: Vec<Frame>,
    record: Vec<Frame>,
    depth: usize,
    implementations: Table<Table<Type>>,
    foreign_imports: Table<Table<Type>>,
}

/// Every table that a registry holds is well formed.
pub open spec fn registry_wf(reg: &Table<Table<Type>>) -> bool {
    &&& reg.wf()
    &&& forall|k: Seq<char>| #[trigger] reg@.contains_key(k) ==> reg@[k].wf()
}

/// `after` is `before` with `name` bound to `t` in the innermost frame.
pub open spec fn assigned(before: SymTab, after: SymTab, name: Seq<char>, t: Type) -> bool {
    &&& after.frames().len() == before.frames().len()
    &&& after.frames().last().table@ == before.frames().last().table@.insert(name, t)
    &&& after.frames().last().depth == before.frames().last().depth
    &&& after.frames().drop_last() == before.frames().drop_last()
    &&& after.archived() == before.archived()
    &&& after.spec_depth() == before.spec_depth()
    &&& after.methods() == before.methods()
    &&& after.modules() == before.modules()
}

/// `after` is `before` with a new empty innermost frame tagged with the current depth.
pub open spec fn pushed(before: SymTab, after: SymTab) -> bool {
    &&& after.frames().len() == before.frames().len() + 1
    &&& after.frames().drop_last() == before.frames()
    &&& after.frames().last().table@ == Map::<Seq<char>, Type>::empty()
    &&& after.frames().last().depth == before.spec_depth()
    &&& after.archived() == before.archived()
    &&& after.spec_depth() == before.spec_depth()
    &&& after.methods() == before.methods()
    &&& after.modules() == before.modules()
}

/// `after` is `before` with its innermost frame moved to the archive.
pub open spec fn popped(before: SymTab, after: SymTab) -> bool {
    &&& after.frames() == before.frames().drop_last()
    &&& after.archived() == before.archived().push(before.frames().last())
    &&& after.spec_depth() == before.spec_depth()
    &&& after.methods() == before.methods()
    &&& after.modules() == before.modules()
}

/// `after` is `before` with method `name` of type `t` registered for the type `id`.
pub open spec fn implemented(before: SymTab, after: SymTab, id: Seq<char>, name: Seq<char>, t: Type) -> bool {
    &&& after.methods().dom() == before.methods().dom().insert(id)
    &&& forall|k: Seq<char>| k != id ==> #[trigger] after.methods()[k] == before.methods()[k]
    &&& after.methods()[id]@ == (if before.methods().contains_key(id) {
        before.methods()[id]@
    } else {
        Map::<Seq<char>, Type>::empty()
    }).insert(name, t)
    &&& after.frames() == before.frames()
    &&& after.archived() == before.archived()
    &&& after.spec_depth() == before.spec_depth()
    &&& after.modules() == before.modules()
}

/// `after` is `before` with `origin` recorded as the whole import of module `id`.
pub open spec fn imported(before: SymTab, after: SymTab, id: Seq<char>, origin: Table<Type>) -> bool {
    &&& after.modules() == before.modules().insert(id, origin)
    &&& after.frames() == before.frames()
    &&& after.archived() == before.archived()
    &&& after.spec_depth() == before.spec_depth()
    &&& after.methods() == before.methods()
}

impl SymTab {
    /// The active frames, outermost first.
    pub closed spec fn frames(&self) -> Seq<Frame> {
        self.stack@
    }

    /// The archived frames, most recently archived last.
    pub closed spec fn archived(&self) -> Seq<Frame> {
        self.record@
    }

    /// The depth that newly pushed frames are tagged with.
    pub closed spec fn spec_depth(&self) -> usize {
        self.depth
    }

    /// Method registry: type name to its methods.
    pub closed spec fn methods(&self) -> Map<Seq<char>, Table<Type>> {
        self.implementations@
    }

    /// Foreign-import registry: module name to its exported bindings.
    pub closed spec fn modules(&self) -> Map<Seq<char>, Table<Type>> {
        self.foreign_imports@
    }

    /// The bindings of the active frames, outermost first.
    pub open spec fn scopes(&self) -> Seq<Map<Seq<char>, Type>> {
        self.frames().map_values(|f: Frame| f.table@)
    }

    pub closed spec fn wf(&self) -> bool {
        &&& self.stack@.len() > 0
        &&& forall|i: int| 0 <= i < self.stack@.len() ==> #[trigger] self.stack@[i].wf()
        &&& forall|i: int| 0 <= i < self.record@.len() ==> #[trigger] self.record@[i].wf()
        &&& registry_wf(&self.implementations)
        &&& registry_wf(&self.foreign_imports)
    }

    /// What the invariant of a well-formed table gives its users.
    pub proof fn lemma_wf(&self)
        requires
            self.wf(),
        ensures
            self.frames().len() > 0,
            forall|i: int| 0 <= i < self.frames().len() ==> #[trigger] self.frames()[i].wf(),
            forall|i: int| 0 <= i < self.archived().len() ==> #[trigger] self.archived()[i].wf(),
            forall|k: Seq<char>| #[trigger] self.methods().contains_key(k) ==> self.methods()[k].wf(),
            forall|k: Seq<char>| #[trigger] self.modules().contains_key(k) ==> self.modules()[k].wf(),
    {
    }

    /// The active frames, outermost first.
    pub fn stack(&self) -> (r: &Vec<Frame>)
        ensures
            r@ == self.frames(),
    {
        &self.stack
    }

    /// The archived frames, most recently archived last.
    pub fn record(&self) -> (r: &Vec<Frame>)
        ensures
            r@ == self.archived(),
    {
        &self.record
    }

    /// The depth that newly pushed frames are tagged with.
    pub fn depth(&self) -> (r: usize)
        ensures
            r == self.spec_depth(),
    {
        self.depth
    }

    /// The method registry: type name to its methods.
    pub fn implementations(&self) -> (r: &Table<Table<Type>>)
        ensures
            r@ == self.methods(),
    {
        &self.implementations
    }

    /// The foreign-import registry: module name to its exported bindings.
    pub fn foreign_imports(&self) -> (r: &Table<Table<Type>>)
        ensures
            r@ == self.modules(),
    {
        &self.foreign_imports
    }

    /// A table with one empty global frame.
    pub fn new() -> (r: Self)
        ensures
            r.wf(),
            r.frames().len() == 1,
            r.frames()[0].table@ == Map::<Seq<char>, Type>::empty(),
            r.frames()[0].depth == 0,
            r.archived().len() == 0,
            r.spec_depth() == 0,
            r.methods() == Map::<Seq<char>, Table<Type>>::empty(),
            r.modules() == Map::<Seq<char>, Table<Type>>::empty(),
    {
        let mut stack: Vec<Frame> = Vec::new();
        stack.push(Frame::new(0));
        SymTab {
            stack,
            record: Vec::new(),
            depth: 0,
            implementations: Table::new(),
            foreign_imports: Table::new(),
        }
    }

    /// A table whose global frame holds the bindings of `table`.
    pub fn from(table: Table<Type>) -> (r: Self)
        requires
            table.wf(),
        ensures
            r.wf(),
            r.frames().len() == 1,
            r.frames()[0].table == table,
            r.frames()[0].depth == 0,
            r.archived().len() == 0,
            r.spec_depth() == 0,
            r.methods() == Map::<Seq<char>, Table<Type>>::empty(),
            r.modules() == Map::<Seq<char>, Table<Type>>::empty(),
    {
        let mut stack: Vec<Frame> = Vec::new();
        stack.push(Frame::from(table, 0));
        SymTab {
            stack,
            record: Vec::new(),
            depth: 0,
            implementations: Table::new(),
            foreign_imports: Table::new(),
        }
    }

    /// Binds `name` to `t` in the innermost frame.
    pub fn assign(&mut self, name: String, t: Type)
        requires
            old(self).wf(),
        ensures
            final(self).wf(),
            assigned(*old(self), *final(self), name@, t),
    {
        let last = self.stack.len() - 1;
        self.stack[last].assign(name, t);
        proof {
            assert(self.stack@.drop_last() =~= old(self).stack@.drop_last());
        }
    }

    /// Binds `name` to `t` in the innermost frame.
    pub fn assign_str(&mut self, name: &str, t: Type)
        requires
            old(self).wf(),
        ensures
            final(self).wf(),
            assigned(*old(self), *final(self), name@, t),
    {
        self.assign(name.to_owned(), t)
    }

    /// The type of `name` in the innermost active frame that binds it.
    pub fn fetch(&self, name: &String) -> (r: Option<Type>)
        requires
            self.wf(),
        ensures
            r == resolve(self.scopes(), name@),
    {
        let mut offset: usize = self.stack.len();
        assert(self.scopes().take(offset as int) =~= self.scopes());
        while offset > 0
            invariant
                self.wf(),
                offset <= self.stack@.len(),
                resolve(self.scopes(), name@) == resolve(self.scopes().take(offset as int), name@),
            decreases offset,
        {
            let ghost pre = self.scopes().take(offset as int);
            assert(pre.drop_last() =~= self.scopes().take(offset - 1));
            match self.stack[offset - 1].get(name) {
                Some(t) => {
                    return Some(t);
                },
                None => {},
            }
            offset = offset - 1;
        }
        None
    }

    /// The type of `name` in the innermost active frame that binds it.
    pub fn fetch_str(&self, name: &str) -> (r: Option<Type>)
        requires
            self.wf(),
        ensures
            r == resolve(self.scopes(), name@),
    {
        self.fetch(&name.to_owned())
    }

    /// Moves the most recently archived frame back onto the active stack.
    pub fn revert_frame(&mut self)
        requires
            old(self).wf(),
            old(self).archived().len() > 0,
        ensures
            final(self).wf(),
            final(self).frames() == old(self).frames().push(old(self).archived().last()),
            final(self).archived() == old(self).archived().drop_last(),
            final(self).spec_depth() == old(self).spec_depth(),
            final(self).methods() == old(self).methods(),
            final(self).modules() == old(self).modules(),
    {
        let frame = self.record.pop().unwrap();
        self.stack.push(frame);
    }

    /// The innermost active frame.
    pub fn current_frame(&self) -> (r: &Frame)
        requires
            self.wf(),
        ensures
            *r == self.frames().last(),
            r.wf(),
    {
        let last = self.stack.len() - 1;
        &self.stack[last]
    }

    /// The innermost active frame, for changing in place.
    pub fn current_frame_mut(&mut self) -> (r: &mut Frame)
        requires
            old(self).wf(),
        ensures
            *r == old(self).frames().last(),
            final(r).wf() ==> final(self).wf(),
            final(self).frames() == old(self).frames().drop_last().push(*final(r)),
            final(self).archived() == old(self).archived(),
            final(self).spec_depth() == old(self).spec_depth(),
            final(self).methods() == old(self).methods(),
            final(self).modules() == old(self).modules(),
    {
        let last = self.stack.len() - 1;
        &mut self.stack[last]
    }

    /// Installs `frame` in place of the innermost active frame.
    pub fn put_frame(&mut self, frame: Frame)
        requires
            old(self).wf(),
            frame.wf(),
        ensures
            final(self).wf(),
            final(self).frames() == old(self).frames().drop_last().push(frame),
            final(self).archived() == old(self).archived(),
            final(self).spec_depth() == old(self).spec_depth(),
            final(self).methods() == old(self).methods(),
            final(self).modules() == old(self).modules(),
    {
        let last = self.stack.len() - 1;
        self.stack.set(last, frame);
        proof {
            assert(self.stack@ =~= old(self).stack@.drop_last().push(frame));
        }
    }

    /// Opens a new, empty innermost scope tagged with the current depth.
    pub fn push(&mut self)
        requires
            old(self).wf(),
        ensures
            final(self).wf(),
            pushed(*old(self), *final(self)),
    {
        let frame = Frame::new(self.depth);
        self.stack.push(frame);
        proof {
            assert(self.stack@.drop_last() =~= old(self).stack@);
        }
    }

    /// Closes the innermost scope and archives its frame; the global frame stays.
    pub fn pop(&mut self)
        requires
            old(self).wf(),
            old(self).frames().len() > 1,
        ensures
            final(self).wf(),
            popped(*old(self), *final(self)),
    {
        let popped = self.stack.pop().unwrap();
        self.record.push(popped)
    }

    /// Raises the depth that new frames are tagged with.
    pub fn enter(&mut self)
        requires
            old(self).wf(),
            old(self).spec_depth() < usize::MAX,
        ensures
            final(self).wf(),
            final(self).spec_depth() == old(self).spec_depth() + 1,
            final(self).frames() == old(self).frames(),
            final(self).archived() == old(self).archived(),
            final(self).methods() == old(self).methods(),
            final(self).modules() == old(self).modules(),
    {
        self.depth = self.depth + 1
    }

    /// Lowers the depth that new frames are tagged with, never below zero.
    pub fn exit(&mut self)
        requires
            old(self).wf(),
        ensures
            final(self).wf(),
            final(self).spec_depth() == (if old(self).spec_depth() > 0 {
                old(self).spec_depth() - 1
            } else {
                0
            }),
            final(self).frames() == old(self).frames(),
            final(self).archived() == old(self).archived(),
            final(self).methods() == old(self).methods(),
            final(self).modules() == old(self).modules(),
    {
        if self.depth > 0 {
            self.depth = self.depth - 1
        }
    }

    /// The methods registered for the type `id`.
    pub fn get_implementations(&self, id: &String) -> (r: Option<&Table<Type>>)
        requires
            self.wf(),
        ensures
            match r {
                Some(t) => self.methods().contains_key(id@) && *t == self.methods()[id@] && t.wf(),
                None => !self.methods().contains_key(id@),
            },
    {
        self.implementations.get(id.as_str())
    }

    /// The type of method `method_name` of the type `id`, which must be registered.
    pub fn get_implementation_force(&self, id: &String, method_name: &String) -> (r: Type)
        requires
            self.wf(),
            self.methods().contains_key(id@),
            self.methods()[id@]@.contains_key(method_name@),
        ensures
            r == self.methods()[id@]@[method_name@],
    {
        let methods = self.get_implementations(id).unwrap();
        *methods.get(method_name.as_str()).unwrap()
    }

    /// Registers method `method_name` of type `method_type` for the type `id`,
    /// keeping the type's other methods.
    pub fn implement(&mut self, id: &String, method_name: String, method_type: Type)
        requires
            old(self).wf(),
        ensures
            final(self).wf(),
            implemented(*old(self), *final(self), id@, method_name@, method_type),
    {
        let mut methods = match self.implementations.remove(id.as_str()) {
            Some(t) => t,
            None => Table::new(),
        };
        methods.insert(method_name, method_type);
        self.implementations.insert(id.clone(), methods);
        proof {
            assert(self.implementations@.dom() =~= old(self).implementations@.dom().insert(id@));
        }
    }

    /// The bindings imported from module `id`.
    pub fn get_foreign_module(&self, id: &String) -> (r: Option<&Table<Type>>)
        requires
            self.wf(),
        ensures
            match r {
                Some(t) => self.modules().contains_key(id@) && *t == self.modules()[id@] && t.wf(),
                None => !self.modules().contains_key(id@),
            },
    {
        self.foreign_imports.get(id.as_str())
    }

    /// Records `origin` as the bindings of module `id`, discarding any earlier import of `id`.
    pub fn import(&mut self, id: String, origin: Table<Type>)
        requires
            old(self).wf(),
            origin.wf(),
        ensures
            final(self).wf(),
            imported(*old(self), *final(self), id@, origin),
    {
        self.foreign_imports.insert(id, origin);
    }
}

/// A name just assigned resolves to the type it was given.
pub proof fn lemma_assign_then_fetch(s0: SymTab, s1: SymTab, name: Seq<char>, t: Type)
    requires
        s0.wf(),
        assigned(s0, s1, name, t),
    ensures
        resolve(s1.scopes(), name) == Some(t),
{
    s0.lemma_wf();
    assert(s1.scopes().last() == s1.frames().last().table@);
}

/// A binding in a new inner scope shadows the same name in the scope around
/// it, and closing the inner scope brings the outer binding back.
pub proof fn lemma_shadow_and_restore(
    s0: SymTab,
    s1: SymTab,
    s2: SymTab,
    s3: SymTab,
    s4: SymTab,
    s5: SymTab,
    name: Seq<char>,
    t1: Type,
    t2: Type,
)
    requires
        s0.wf(),
        pushed(s0, s1),
        assigned(s1, s2, name, t1),
        pushed(s2, s3),
        assigned(s3, s4, name, t2),
        popped(s4, s5),
    ensures
        resolve(s4.scopes(), name) == Some(t2),
        resolve(s5.scopes(), name) == Some(t1),
{
    assert(s4.scopes().last() == s4.frames().last().table@);
    assert(s5.frames() =~= s2.frames());
    assert(s5.scopes().last() == s2.frames().last().table@);
}

/// Registering methods for a type keeps its other methods; registering a
/// method again replaces that method alone.
pub proof fn lemma_methods_accumulate(
    s0: SymTab,
    s1: SymTab,
    s2: SymTab,
    s3: SymTab,
    id: Seq<char>,
    bar: Seq<char>,
    baz: Seq<char>,
    t1: Type,
    t2: Type,
    t3: Type,
)
    requires
        bar != baz,
        implemented(s0, s1, id, bar, t1),
        implemented(s1, s2, id, baz, t2),
        implemented(s2, s3, id, bar, t3),
    ensures
        s2.methods()[id]@.contains_key(bar),
        s2.methods()[id]@.contains_key(baz),
        s2.methods()[id]@[bar] == t1,
        s2.methods()[id]@[baz] == t2,
        s3.methods()[id]@ == s2.methods()[id]@.insert(bar, t3),
        s3.methods()[id]@[baz] == t2,
{
    assert(s1.methods().contains_key(id));
    assert(s2.methods().contains_key(id));
}

/// Importing a module again discards what the earlier import bound.
pub proof fn lemma_import_replaces(
    s0: SymTab,
    s1: SymTab,
    s2: SymTab,
    id: Seq<char>,
    first: Table<Type>,
    second: Table<Type>,
)
    requires
        imported(s0, s1, id, first),
        imported(s1, s2, id, second),
    ensures
        s2.modules().contains_key(id),
        s2.modules()[id] == second,
        s2.modules()[id]@ == second@,
{
}

} // verus!
