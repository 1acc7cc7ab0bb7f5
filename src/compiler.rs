//! The driver of the pipeline: lowers parsed programs and keeps their modules.
use vstd::prelude::*;
use crate::arena::{Idx, IndexedArena};
use crate::ast::{LoweringError, Program};
use crate::ir::Module;
use crate::translate::{all_functions_ok, module_lowers, IrBuilder};

verus! {

/// The modules compiled so far.
pub struct Compiler {
    pub modules: IndexedArena<Module>,
    pub ir_builder: IrBuilder,
}

impl Compiler {
    /// A compiler with no modules.
    pub fn new() -> (r: Compiler)
        ensures
            r.modules.wf(),
            r.modules@ == Map::<Idx, Module>::empty(),
    {
        Compiler { modules: IndexedArena::new(), ir_builder: IrBuilder::new() }
    }

    /// Lowers a parsed program and keeps its module, returning the module's
    /// index; a program the lowering rejects leaves the modules as they were.
    pub fn add_program(&mut self, program: Program) -> (r: Result<Idx, LoweringError>)
        requires
            old(self).modules.wf(),
            program.program_arena.wf(),
        ensures
            final(self).modules.wf(),
            r is Ok <==> all_functions_ok(program.program_arena),
            match r {
                Ok(i) => {
                    &&& !old(self).modules@.contains_key(i)
                    &&& final(self).modules@.contains_key(i)
                    &&& final(self).modules@ == old(self).modules@.insert(i, final(self).modules@[i])
                    &&& module_lowers(program, final(self).modules@[i])
                },
                Err(_) => final(self).modules@ == old(self).modules@,
            },
    {
        match self.ir_builder.convert(program) {
            Ok(module) => Ok(self.modules.insert(module)),
            Err(e) => Err(e),
        }
    }
}

} // verus!
