//! Interpreter-wide state shared across evaluations: the globally
//! available symbols and the interpreter's configuration flags.  It holds
//! nothing cell-specific, so one value serves every interpreter of a
//! session; the session registers it under a key whose declared equality
//! is never equal, so that every re-request rebuilds it.

use std::sync::Arc;

use vstd::prelude::*;

verus! {

/// The mapping from cell names to cell roots, as the interpreter reads
/// it.
#[derive(Debug)]
pub struct CellResolver {
    pub cell_names: Vec<String>,
}

/// The globally available symbols.
#[derive(Debug)]
pub struct Globals {
    pub symbols: Vec<String>,
}

/// The interpreter's configuration: which prelude import build files
/// see, if any.
#[derive(Debug)]
pub struct BuildInterpreterConfiguror {
    pub prelude_import: Option<String>,
    pub globals: Globals,
}

/// Information shared across interpreters.  Contains no cell-specific
/// information.
#[derive(Debug)]
pub struct GlobalInterpreterState {
    pub cell_resolver: CellResolver,
    pub global_env: Globals,
    pub configuror: Arc<BuildInterpreterConfiguror>,
    pub disable_starlark_types: bool,
    pub unstable_typecheck: bool,
    pub enable_f_strings: bool,
}

/// The symbols of a globals table, by content.
pub open spec fn symbol_values(g: Globals) -> Seq<Seq<char>> {
    g.symbols@.map(|i: int, s: String| s@)
}

impl Globals {
    /// An exact copy of the symbol table.
    pub fn duplicate(&self) -> (r: Globals)
        ensures
            symbol_values(r) == symbol_values(*self),
    {
        let mut symbols: Vec<String> = Vec::new();
        let mut i: usize = 0;
        while i < self.symbols.len()
            invariant
                i <= self.symbols@.len(),
                symbols@.len() == i,
                forall|j: int| 0 <= j < i ==> (#[trigger] symbols@[j])@ == self.symbols@[j]@,
            decreases self.symbols@.len() - i,
        {
            symbols.push(self.symbols[i].clone());
            i = i + 1;
        }
        let r = Globals { symbols };
        proof {
            assert(symbol_values(r) =~= symbol_values(*self));
        }
        r
    }
}

impl GlobalInterpreterState {
    /// Builds the shared state: the global environment is the one the
    /// configuror carries.
    pub fn new(
        cell_resolver: CellResolver,
        interpreter_configuror: Arc<BuildInterpreterConfiguror>,
        disable_starlark_types: bool,
        unstable_typecheck: bool,
        enable_f_strings: bool,
    ) -> (r: GlobalInterpreterState)
        ensures
            symbol_values(r.global_env) == symbol_values(interpreter_configuror.globals),
            r.cell_resolver == cell_resolver,
            r.configuror == interpreter_configuror,
            r.disable_starlark_types == disable_starlark_types,
            r.unstable_typecheck == unstable_typecheck,
            r.enable_f_strings == enable_f_strings,
    {
        let global_env = interpreter_configuror.globals.duplicate();
        GlobalInterpreterState {
            cell_resolver,
            global_env,
            configuror: interpreter_configuror,
            disable_starlark_types,
            unstable_typecheck,
            enable_f_strings,
        }
    }

    /// The interpreter configuror.
    pub fn configuror(&self) -> (r: &Arc<BuildInterpreterConfiguror>)
        ensures
            r == &self.configuror,
    {
        &self.configuror
    }

    /// The globally available symbols.
    pub fn globals(&self) -> (r: &Globals)
        ensures
            r == &self.global_env,
    {
        &self.global_env
    }
}

} // verus!
