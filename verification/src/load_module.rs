//! Modules of interpreted code, and what they import.
use std::sync::Arc;
use vstd::prelude::*;
use vstd::string::*;

use crate::text;

verus! {

/// The path of a module, and how it is used.
#[derive(Debug)]
pub enum StarlarkModulePath {
    /// A module that others load.
    LoadFile(String),
    /// A BXL module.
    BxlFile(String),
}

/// Two paths are the same.
pub open spec fn same_path(a: StarlarkModulePath, b: StarlarkModulePath) -> bool {
    match (a, b) {
        (StarlarkModulePath::LoadFile(x), StarlarkModulePath::LoadFile(y)) => x@ == y@,
        (StarlarkModulePath::BxlFile(x), StarlarkModulePath::BxlFile(y)) => x@ == y@,
        _ => false,
    }
}

impl StarlarkModulePath {
    pub fn same_as(&self, other: &Self) -> (r: bool)
        ensures
            r == same_path(*self, *other),
    {
        match (self, other) {
            (StarlarkModulePath::LoadFile(x), StarlarkModulePath::LoadFile(y)) => text::str_eq(
                x.as_str(),
                y.as_str(),
            ),
            (StarlarkModulePath::BxlFile(x), StarlarkModulePath::BxlFile(y)) => text::str_eq(
                x.as_str(),
                y.as_str(),
            ),
            _ => false,
        }
    }
}

/// A module that was loaded, with the paths that it imports.
#[derive(Debug)]
pub struct LoadedModule {
    pub imports: Vec<String>,
}

/// Why a module was not loaded.
#[derive(Debug)]
pub enum LoadError {
    /// Nothing is there yet that could load it.
    NotBound,
    /// The module has not been asked for.
    NotComputed,
    Failed(String),
}

/// Loads modules.
pub trait InterpreterCalculation: Sized {
    /// What asking for a module gives.
    spec fn module_at(&self, path: StarlarkModulePath) -> Result<Arc<LoadedModule>, LoadError>;

    /// The module at a path.
    fn get_loaded_module(&mut self, path: StarlarkModulePath) -> (r: Result<
        Arc<LoadedModule>,
        LoadError,
    >)
        ensures
            r == old(self).module_at(path),
            *final(self) == *old(self),
    ;

    /// The module that others load from a path.
    fn get_loaded_module_from_import_path(&mut self, path: &String) -> (r: Result<
        Arc<LoadedModule>,
        LoadError,
    >)
        ensures
            r == old(self).module_at(StarlarkModulePath::LoadFile(*path)),
            *final(self) == *old(self),
    {
        self.get_loaded_module(StarlarkModulePath::LoadFile(path.clone()))
    }

    /// The paths that a module imports.
    fn get_loaded_module_imports(&mut self, path: &String) -> (r: Result<Vec<String>, LoadError>)
        ensures
            match old(self).module_at(StarlarkModulePath::LoadFile(*path)) {
                Ok(m) => r matches Ok(imports) && imports@ == m.imports@,
                Err(e) => r == Err::<Vec<String>, LoadError>(e),
            },
            *final(self) == *old(self),
    {
        match self.get_loaded_module_from_import_path(path) {
            Ok(m) => Ok(text::clone_strings(&m.imports)),
            Err(e) => Err(e),
        }
    }
}

/// The modules that were computed, and whether anything can load modules at all.
pub struct ComputedModules {
    pub bound: bool,
    pub modules: Vec<(StarlarkModulePath, Result<Arc<LoadedModule>, String>)>,
}

/// What is known of a module, from entry `i` on.
pub open spec fn module_from(
    modules: Seq<(StarlarkModulePath, Result<Arc<LoadedModule>, String>)>,
    path: StarlarkModulePath,
    i: int,
) -> Result<Arc<LoadedModule>, LoadError>
    decreases modules.len() - i,
{
    if i < 0 || i >= modules.len() {
        Err(LoadError::NotComputed)
    } else if same_path(modules[i].0, path) {
        match modules[i].1 {
            Ok(m) => Ok(m),
            Err(e) => Err(LoadError::Failed(e)),
        }
    } else {
        module_from(modules, path, i + 1)
    }
}

impl InterpreterCalculation for ComputedModules {
    open spec fn module_at(&self, path: StarlarkModulePath) -> Result<
        Arc<LoadedModule>,
        LoadError,
    > {
        if self.bound {
            module_from(self.modules@, path, 0)
        } else {
            Err(LoadError::NotBound)
        }
    }

    fn get_loaded_module(&mut self, path: StarlarkModulePath) -> (r: Result<
        Arc<LoadedModule>,
        LoadError,
    >) {
        if !self.bound {
            return Err(LoadError::NotBound);
        }
        let mut i: usize = 0;
        while i < self.modules.len()
            invariant
                i <= self.modules@.len(),
                *self == *old(self),
                self.bound,
                module_from(self.modules@, path, 0) == module_from(self.modules@, path, i as int),
            decreases self.modules@.len() - i,
        {
            if self.modules[i].0.same_as(&path) {
                return match &self.modules[i].1 {
                    Ok(m) => Ok(m.clone()),
                    Err(e) => Err(LoadError::Failed(e.clone())),
                };
            }
            i = i + 1;
        }
        Err(LoadError::NotComputed)
    }
}

/// Modules are told apart by what they are and where they lie.
pub proof fn law_modules_are_told_apart(x: String, y: String)
    ensures
        same_path(StarlarkModulePath::LoadFile(x), StarlarkModulePath::LoadFile(y)) <==> x@ == y@,
        same_path(StarlarkModulePath::BxlFile(x), StarlarkModulePath::BxlFile(y)) <==> x@ == y@,
        !same_path(StarlarkModulePath::LoadFile(x), StarlarkModulePath::BxlFile(y)),
        !same_path(StarlarkModulePath::BxlFile(x), StarlarkModulePath::LoadFile(y)),
{
}

/// The module at a path is the first that was computed for it; without one there is none.
pub proof fn law_first_computed_module_counts(
    computed: ComputedModules,
    path: StarlarkModulePath,
    i: int,
)
    requires
        computed.bound,
        0 <= i <= computed.modules@.len(),
        forall|k: int| 0 <= k < i ==> !same_path((#[trigger] computed.modules@[k]).0, path),
    ensures
        i == computed.modules@.len() ==> computed.module_at(path) == Err::<
            Arc<LoadedModule>,
            LoadError,
        >(LoadError::NotComputed),
        i < computed.modules@.len() && same_path(computed.modules@[i].0, path)
            && computed.modules@[i].1 is Ok ==> computed.module_at(path) == Ok::<
            Arc<LoadedModule>,
            LoadError,
        >(computed.modules@[i].1->Ok_0),
        i < computed.modules@.len() && same_path(computed.modules@[i].0, path)
            && computed.modules@[i].1 is Err ==> computed.module_at(path) == Err::<
            Arc<LoadedModule>,
            LoadError,
        >(LoadError::Failed(computed.modules@[i].1->Err_0)),
{
    lemma_module_from(computed.modules@, path, 0, i);
}

proof fn lemma_module_from(
    modules: Seq<(StarlarkModulePath, Result<Arc<LoadedModule>, String>)>,
    path: StarlarkModulePath,
    from: int,
    to: int,
)
    requires
        0 <= from <= to <= modules.len(),
        forall|k: int| from <= k < to ==> !same_path((#[trigger] modules[k]).0, path),
    ensures
        module_from(modules, path, from) == module_from(modules, path, to),
    decreases to - from,
{
    if from < to {
        assert(!same_path(modules[from].0, path));
        lemma_module_from(modules, path, from + 1, to);
    }
}

} // verus!
