//! The step-driven interpreter: an ordered queue of parsed statements and a
//! symbol table. Each step removes the front statement and executes it;
//! once the queue is empty the interpreter has exited, and further steps
//! only report that terminal state.

use crate::expr::{EvalErr, Expr, Outcome};
use crate::stmt::Statement;
use crate::symtab::SymbolTable;
use std::collections::VecDeque;
use vstd::prelude::*;

verus! {

/// What a step can report besides a fresh table snapshot.
#[derive(PartialEq, Debug)]
pub enum InterpretErr {
    /// The queue was already empty: normal termination, not a failure.
    ProgramAlreadyExitted,
    /// The executed statement failed to evaluate.
    EvalErr(EvalErr),
}

/// The spec-level result of running statements to completion from a given
/// table: the final table, or the name of the first unbound variable hit.
pub enum RunOutcome {
    Done(Map<Seq<char>, u32>),
    Stuck(Seq<char>),
}

/// Runs the statements in order against `st`, stopping at the first
/// evaluation failure.
pub open spec fn run_program(stmts: Seq<Statement>, st: Map<Seq<char>, u32>) -> RunOutcome
    decreases stmts.len(),
{
    if stmts.len() == 0 {
        RunOutcome::Done(st)
    } else {
        match stmts[0].rhs.outcome(st) {
            Outcome::Value(n) => run_program(stmts.drop_first(), st.insert(stmts[0].lhs@, n)),
            Outcome::Unbound(name) => RunOutcome::Stuck(name),
        }
    }
}

/// The interpreter: the statements not yet executed, front first, and the
/// table the executed ones have built.
pub struct Interpreter {
    pub stmts: VecDeque<Statement>,
    pub st: SymbolTable,
}

impl Interpreter {
    /// An interpreter holding the program, with an empty table.
    pub fn new(prog: VecDeque<Statement>) -> (r: Interpreter)
        ensures
            r.stmts@ == prog@,
            r.st@ == Map::<Seq<char>, u32>::empty(),
    {
        Interpreter { stmts: prog, st: SymbolTable::new() }
    }

    /// Executes the front statement, if any. On success the queue advances,
    /// the table gains the new binding, and a view of the table is
    /// returned; on an evaluation failure the queue still advances but the
    /// table is unchanged; on an empty queue nothing changes and the
    /// terminal state is reported.
    pub fn step(&mut self) -> (r: Result<&SymbolTable, InterpretErr>)
        ensures
            old(self).stmts@.len() == 0 ==> {
                &&& final(self).stmts@ == old(self).stmts@
                &&& final(self).st@ == old(self).st@
                &&& r matches Err(InterpretErr::ProgramAlreadyExitted)
            },
            old(self).stmts@.len() > 0 ==> {
                let stmt = old(self).stmts@[0];
                &&& final(self).stmts@ == old(self).stmts@.drop_first()
                &&& (stmt.rhs.outcome(old(self).st@) matches Outcome::Value(n) ==> {
                    &&& final(self).st@ == old(self).st@.insert(stmt.lhs@, n)
                    &&& r matches Ok(t) && t@ == final(self).st@
                })
                &&& (stmt.rhs.outcome(old(self).st@) matches Outcome::Unbound(name) ==> {
                    &&& final(self).st@ == old(self).st@
                    &&& r matches Err(InterpretErr::EvalErr(EvalErr::UninitializedVar(s))) && s@
                        == name
                })
            },
    {
        match self.stmts.pop_front() {
            None => Err(InterpretErr::ProgramAlreadyExitted),
            Some(stmt) => {
                proof {
                    assert(old(self).stmts@.subrange(1, old(self).stmts@.len() as int)
                        =~= old(self).stmts@.drop_first());
                }
                match stmt.execute(&mut self.st) {
                    Ok(_) => Ok(&self.st),
                    Err(e) => Err(InterpretErr::EvalErr(e)),
                }
            },
        }
    }

    /// Steps until the program has exited and returns the final table, or
    /// surfaces the first evaluation failure met on the way.
    pub fn step_till_end(self) -> (r: Result<SymbolTable, InterpretErr>)
        ensures
            run_program(self.stmts@, self.st@) matches RunOutcome::Done(m) ==> (r matches Ok(t)
                && t@ == m),
            run_program(self.stmts@, self.st@) matches RunOutcome::Stuck(name) ==> (r matches Err(
                InterpretErr::EvalErr(EvalErr::UninitializedVar(s)),
            ) && s@ == name),
    {
        let mut this = self;
        loop
            invariant
                run_program(this.stmts@, this.st@) == run_program(self.stmts@, self.st@),
            decreases this.stmts@.len(),
        {
            let ghost pre = this;
            match this.step() {
                Ok(_) => {
                    proof {
                        assert(run_program(pre.stmts@, pre.st@) == run_program(
                            this.stmts@,
                            this.st@,
                        ));
                    }
                },
                Err(InterpretErr::ProgramAlreadyExitted) => {
                    return Ok(this.st);
                },
                Err(e) => {
                    return Err(e);
                },
            }
        }
    }
}

} // verus!
