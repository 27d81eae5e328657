//! What a chain tells of its modules, as far as its events need it.

use vstd::prelude::*;

verus! {

/// The type of one argument of an event, as the chain names it.
#[derive(Debug)]
pub enum EventArg {
    /// A type known by name.
    Primitive(String),
    /// A vector of values of one type.
    Vec(Box<EventArg>),
    /// Values of several types, one after the other.
    Tuple(Vec<EventArg>),
    /// A value of a type, or none.
    Option(Box<EventArg>),
}

/// The texts of some strings.
pub open spec fn texts(strings: Seq<String>) -> Seq<Seq<char>> {
    strings.map_values(|string: String| string@)
}

/// The names of all primitive types in `arg`, from left to right.
pub open spec fn primitives_of(arg: EventArg) -> Seq<Seq<char>>
    decreases arg,
{
    match arg {
        EventArg::Primitive(name) => seq![name@],
        EventArg::Vec(inner) => primitives_of(*inner),
        EventArg::Tuple(args) => primitives_of_all(args@),
        EventArg::Option(inner) => primitives_of(*inner),
    }
}

/// The names of all primitive types in `args`, from left to right.
pub open spec fn primitives_of_all(args: Seq<EventArg>) -> Seq<Seq<char>>
    decreases args,
{
    if args.len() == 0 {
        Seq::empty()
    } else {
        primitives_of(args[0]) + primitives_of_all(args.skip(1))
    }
}

impl EventArg {
    /// Returns the names of all primitive types of this argument.
    pub fn primitives(&self) -> (names: Vec<String>)
        ensures
            texts(names@) == primitives_of(*self),
        decreases self,
    {
        match self {
            EventArg::Primitive(name) => {
                let mut names: Vec<String> = Vec::new();
                names.push(name.clone());
                assert(texts(names@) =~= seq![name@]);
                names
            },
            EventArg::Vec(inner) => inner.primitives(),
            EventArg::Option(inner) => inner.primitives(),
            EventArg::Tuple(args) => {
                assert(decreases_to!(*args => args@));
                primitives_of_args(args)
            },
        }
    }
}

/// Returns the names of all primitive types of `args`.
pub fn primitives_of_args(args: &Vec<EventArg>) -> (names: Vec<String>)
    ensures
        texts(names@) == primitives_of_all(args@),
    decreases args@,
{
    let mut names: Vec<String> = Vec::new();
    let mut i: usize = 0;
    assert(args@.skip(0) =~= args@);
    assert(texts(names@) + primitives_of_all(args@) =~= primitives_of_all(args@));
    while i < args.len()
        invariant
            i <= args.len(),
            texts(names@) + primitives_of_all(args@.skip(i as int)) == primitives_of_all(args@),
        decreases args.len() - i,
    {
        let ghost before = names@;
        assert(decreases_to!(args@ => args@[i as int]));
        let mut more = args[i].primitives();
        proof {
            let here = args@.skip(i as int);
            assert(here.skip(1) =~= args@.skip(i + 1));
            assert(here[0] == args@[i as int]);
            assert(texts(before + more@) =~= texts(before) + texts(more@));
            assert(texts(before) + (texts(more@) + primitives_of_all(here.skip(1))) =~= (texts(
                before,
            ) + texts(more@)) + primitives_of_all(here.skip(1)));
        }
        names.append(&mut more);
        i += 1;
    }
    assert(args@.skip(i as int) =~= Seq::empty());
    assert(texts(names@) =~= primitives_of_all(args@));
    names
}

/// One event of a module.
#[derive(Debug)]
pub struct ModuleEventMetadata {
    /// The name of the event.
    pub name: String,
    /// The types of its arguments.
    pub arguments: Vec<EventArg>,
}

/// The events of a module. An event's index is its place among them.
#[derive(Debug)]
pub struct ModuleWithEvents {
    /// The index of the module in the runtime.
    pub index: u8,
    /// The name of the module.
    pub name: String,
    /// The events of the module.
    pub events: Vec<ModuleEventMetadata>,
}

/// The errors of a module. An error's index is its place among them.
#[derive(Debug)]
pub struct ModuleWithErrors {
    /// The index of the module in the runtime.
    pub index: u8,
    /// The name of the module.
    pub name: String,
    /// The names of the errors of the module.
    pub errors: Vec<String>,
}

/// The modules of a chain.
#[derive(Debug)]
pub struct Metadata {
    /// The modules that have events.
    pub modules_with_events: Vec<ModuleWithEvents>,
    /// The modules that have errors.
    pub modules_with_errors: Vec<ModuleWithErrors>,
}

/// What the metadata was asked for and does not hold.
#[derive(Clone, Copy, Debug, PartialEq, Eq, Structural)]
pub enum MetadataError {
    /// No module has the index.
    ModuleIndexNotFound(u8),
    /// The module has no event of the index.
    EventNotFound(u8),
    /// The module has no error of the index.
    ErrorNotFound(u8),
}

/// The first of `modules` whose index is `index`.
pub open spec fn first_with_events(modules: Seq<ModuleWithEvents>, index: u8) -> Option<
    ModuleWithEvents,
>
    decreases modules.len(),
{
    if modules.len() == 0 {
        None
    } else if modules[0].index == index {
        Some(modules[0])
    } else {
        first_with_events(modules.skip(1), index)
    }
}

/// The first of `modules` whose index is `index`.
pub open spec fn first_with_errors(modules: Seq<ModuleWithErrors>, index: u8) -> Option<
    ModuleWithErrors,
>
    decreases modules.len(),
{
    if modules.len() == 0 {
        None
    } else if modules[0].index == index {
        Some(modules[0])
    } else {
        first_with_errors(modules.skip(1), index)
    }
}

impl Metadata {
    /// The events of the module of index `module_index`.
    pub fn module_with_events(&self, module_index: u8) -> (result: Result<
        &ModuleWithEvents,
        MetadataError,
    >)
        ensures
            match first_with_events(self.modules_with_events@, module_index) {
                Some(module) => result == Ok::<&ModuleWithEvents, MetadataError>(&module),
                None => result == Err::<&ModuleWithEvents, MetadataError>(
                    MetadataError::ModuleIndexNotFound(module_index),
                ),
            },
    {
        let mut i: usize = 0;
        assert(self.modules_with_events@.skip(0) =~= self.modules_with_events@);
        while i < self.modules_with_events.len()
            invariant
                i <= self.modules_with_events.len(),
                first_with_events(self.modules_with_events@, module_index) == first_with_events(
                    self.modules_with_events@.skip(i as int),
                    module_index,
                ),
            decreases self.modules_with_events.len() - i,
        {
            assert(self.modules_with_events@.skip(i as int).skip(1)
                =~= self.modules_with_events@.skip(i + 1));
            if self.modules_with_events[i].index == module_index {
                return Ok(&self.modules_with_events[i]);
            }
            i += 1;
        }
        Err(MetadataError::ModuleIndexNotFound(module_index))
    }

    /// The errors of the module of index `module_index`.
    pub fn module_with_errors(&self, module_index: u8) -> (result: Result<
        &ModuleWithErrors,
        MetadataError,
    >)
        ensures
            match first_with_errors(self.modules_with_errors@, module_index) {
                Some(module) => result == Ok::<&ModuleWithErrors, MetadataError>(&module),
                None => result == Err::<&ModuleWithErrors, MetadataError>(
                    MetadataError::ModuleIndexNotFound(module_index),
                ),
            },
    {
        let mut i: usize = 0;
        assert(self.modules_with_errors@.skip(0) =~= self.modules_with_errors@);
        while i < self.modules_with_errors.len()
            invariant
                i <= self.modules_with_errors.len(),
                first_with_errors(self.modules_with_errors@, module_index) == first_with_errors(
                    self.modules_with_errors@.skip(i as int),
                    module_index,
                ),
            decreases self.modules_with_errors.len() - i,
        {
            assert(self.modules_with_errors@.skip(i as int).skip(1)
                =~= self.modules_with_errors@.skip(i + 1));
            if self.modules_with_errors[i].index == module_index {
                return Ok(&self.modules_with_errors[i]);
            }
            i += 1;
        }
        Err(MetadataError::ModuleIndexNotFound(module_index))
    }
}

impl Default for Metadata {
    fn default() -> (metadata: Self)
        ensures
            metadata.modules_with_events@.len() == 0,
            metadata.modules_with_errors@.len() == 0,
    {
        Metadata { modules_with_events: Vec::new(), modules_with_errors: Vec::new() }
    }
}

impl ModuleWithEvents {
    /// The event of index `index`.
    pub fn event(&self, index: u8) -> (result: Result<&ModuleEventMetadata, MetadataError>)
        ensures
            result == if index < self.events@.len() {
                Ok::<&ModuleEventMetadata, MetadataError>(&self.events@[index as int])
            } else {
                Err(MetadataError::EventNotFound(index))
            },
    {
        if (index as usize) < self.events.len() {
            Ok(&self.events[index as usize])
        } else {
            Err(MetadataError::EventNotFound(index))
        }
    }
}

impl ModuleWithErrors {
    /// The name of the error of index `index`.
    pub fn error(&self, index: u8) -> (result: Result<&String, MetadataError>)
        ensures
            result == if index < self.errors@.len() {
                Ok::<&String, MetadataError>(&self.errors@[index as int])
            } else {
                Err(MetadataError::ErrorNotFound(index))
            },
    {
        if (index as usize) < self.errors.len() {
            Ok(&self.errors[index as usize])
        } else {
            Err(MetadataError::ErrorNotFound(index))
        }
    }
}

} // verus!
