//! Compilation of statements to bytecode.
//!
//! The instruction set is not fixed here: the compiler is generic over the
//! instruction type `B`.
use vstd::prelude::*;

use crate::parser::types::{stmts_view, SpecStmt, Stmt};

verus! {

/// Turns statements into a sequence of instructions of type `B`.
pub struct Compiler<B> {
    bytecode: Vec<B>,
    statements: Vec<Stmt>,
}

impl<B: Clone> Compiler<B> {
    /// The instructions emitted so far.
    pub closed spec fn code(self) -> Seq<B> {
        self.bytecode@
    }

    /// The statements to compile.
    pub closed spec fn source(self) -> Seq<SpecStmt> {
        stmts_view(self.statements@)
    }

    /// A compiler for `statements`, with nothing emitted.
    pub fn new(statements: Vec<Stmt>) -> (c: Self)
        ensures
            c.source() == stmts_view(statements@),
            c.code() == Seq::<B>::empty(),
    {
        Compiler { statements, bytecode: Vec::new() }
    }

    /// Compiles every statement in turn and returns a copy of the
    /// instructions. No statement emits an instruction yet, so they are what
    /// they were.
    pub fn compile(&mut self) -> (r: Vec<B>)
        ensures
            final(self).code() == old(self).code(),
            final(self).source() == old(self).source(),
            r@.len() == old(self).code().len(),
            forall|i: int| 0 <= i < r@.len() ==> cloned(old(self).code()[i], #[trigger] r@[i]),
    {
        let mut i: usize = 0;
        let n = self.statements.len();
        while i < n
            invariant
                n == self.statements@.len(),
                self.code() == old(self).code(),
                self.source() == old(self).source(),
                self.statements@ == old(self).statements@,
            decreases n - i,
        {
            self.compile_statement(i);
            i = i + 1;
        }
        self.bytecode.clone()
    }

    /// Compiles the statement at position `i`: no statement emits an
    /// instruction yet.
    fn compile_statement(&mut self, i: usize)
        ensures
            final(self).bytecode@ == old(self).bytecode@,
            final(self).statements@ == old(self).statements@,
    {
    }

    /// Adds an instruction at the end.
    pub fn emit(&mut self, bytecode: B)
        ensures
            final(self).code() == old(self).code().push(bytecode),
            final(self).source() == old(self).source(),
    {
        self.bytecode.push(bytecode);
    }
}

} // verus!
