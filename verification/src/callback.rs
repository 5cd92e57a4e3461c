//! The functions that a pipeline calls, with one record of all their calls.

use crate::shred::{ParsedShred, ShredView};
use crate::types::DecodedInstruction;
use vstd::prelude::*;

verus! {

/// A call of one of the functions.
#[verifier::ext_equal]
pub enum Call {
    /// The function for shreds was called with this shred.
    Shred(ShredView),
    /// The function for instructions was called with this instruction.
    Instruction(DecodedInstruction),
}

/// The calls of the function for instructions with each of `instructions`, in
/// order.
pub open spec fn instruction_calls(instructions: Seq<DecodedInstruction>) -> Seq<Call> {
    instructions.map_values(|inst: DecodedInstruction| Call::Instruction(inst))
}

/// What the function for shreds was called with, in order.
pub open spec fn shreds_called(calls: Seq<Call>) -> Seq<ShredView>
    decreases calls.len(),
{
    if calls.len() == 0 {
        Seq::empty()
    } else {
        match calls.last() {
            Call::Shred(shred) => shreds_called(calls.drop_last()).push(shred),
            Call::Instruction(_) => shreds_called(calls.drop_last()),
        }
    }
}

/// What the function for instructions was called with, in order.
pub open spec fn instructions_called(calls: Seq<Call>) -> Seq<DecodedInstruction>
    decreases calls.len(),
{
    if calls.len() == 0 {
        Seq::empty()
    } else {
        match calls.last() {
            Call::Shred(_) => instructions_called(calls.drop_last()),
            Call::Instruction(inst) => instructions_called(calls.drop_last()).push(inst),
        }
    }
}

/// The arguments of calls that come one after the other.
pub proof fn joined_calls(a: Seq<Call>, b: Seq<Call>)
    ensures
        shreds_called(a + b) == shreds_called(a) + shreds_called(b),
        instructions_called(a + b) == instructions_called(a) + instructions_called(b),
    decreases b.len(),
{
    if b.len() == 0 {
        assert(a + b =~= a);
        assert(shreds_called(a) + shreds_called(b) =~= shreds_called(a));
        assert(instructions_called(a) + instructions_called(b) =~= instructions_called(a));
    } else {
        assert((a + b).drop_last() =~= a + b.drop_last());
        joined_calls(a, b.drop_last());
        assert(shreds_called(a + b) =~= shreds_called(a) + shreds_called(b));
        assert(instructions_called(a + b) =~= instructions_called(a) + instructions_called(b));
    }
}

/// The arguments of the calls with `instructions` are these.
pub proof fn called_with_instructions(instructions: Seq<DecodedInstruction>)
    ensures
        shreds_called(instruction_calls(instructions)) == Seq::<ShredView>::empty(),
        instructions_called(instruction_calls(instructions)) == instructions,
    decreases instructions.len(),
{
    if instructions.len() > 0 {
        let front = instructions.drop_last();
        called_with_instructions(front);
        assert(instruction_calls(instructions).drop_last() =~= instruction_calls(front));
        assert(front.push(instructions.last()) =~= instructions);
    } else {
        assert(instructions =~= Seq::empty());
    }
}

/// The functions for shreds and for instructions, where there are any. They can
/// only be called through [`Callbacks::announce`] and [`Callbacks::hand_on`],
/// which add the call to the record.
pub struct Callbacks<S, I> {
    on_shred: Option<S>,
    on_instruction: Option<I>,
    calls: Ghost<Seq<Call>>,
}

impl<S, I> Callbacks<S, I> {
    /// The function for shreds.
    pub closed spec fn shred_callback(&self) -> Option<S> {
        self.on_shred
    }

    /// The function for instructions.
    pub closed spec fn instruction_callback(&self) -> Option<I> {
        self.on_instruction
    }

    /// All calls of the functions, in order.
    pub closed spec fn calls(&self) -> Seq<Call> {
        self.calls@
    }

    /// No functions.
    pub fn new() -> (callbacks: Self)
        ensures
            callbacks.shred_callback() is None,
            callbacks.instruction_callback() is None,
            callbacks.calls() == Seq::<Call>::empty(),
    {
        Callbacks { on_shred: None, on_instruction: None, calls: Ghost(Seq::empty()) }
    }

    /// Sets the function for shreds.
    pub fn set_on_shred(&mut self, cb: S)
        ensures
            final(self).shred_callback() == Some(cb),
            final(self).instruction_callback() == old(self).instruction_callback(),
            final(self).calls() == old(self).calls(),
    {
        self.on_shred = Some(cb);
    }

    /// Sets the function for instructions.
    pub fn set_on_instruction(&mut self, cb: I)
        ensures
            final(self).shred_callback() == old(self).shred_callback(),
            final(self).instruction_callback() == Some(cb),
            final(self).calls() == old(self).calls(),
    {
        self.on_instruction = Some(cb);
    }

    /// Calls the function for shreds once, if there is one.
    pub fn announce(&mut self, shred: &ParsedShred) where S: Fn(&ParsedShred)
        requires
            old(self).shred_callback() matches Some(cb) ==> call_requires(cb, (shred,)),
        ensures
            final(self).shred_callback() == old(self).shred_callback(),
            final(self).instruction_callback() == old(self).instruction_callback(),
            final(self).calls() == if old(self).shred_callback() is Some {
                old(self).calls().push(Call::Shred(shred@))
            } else {
                old(self).calls()
            },
            old(self).shred_callback() matches Some(cb) ==> call_ensures(cb, (shred,), ()),
    {
        if let Some(cb) = &self.on_shred {
            cb(shred);
            self.calls = Ghost(self.calls@.push(Call::Shred(shred@)));
        }
    }

    /// Calls the function for instructions once, if there is one.
    pub fn hand_on(&mut self, inst: &DecodedInstruction) where I: Fn(&DecodedInstruction)
        requires
            old(self).instruction_callback() matches Some(cb) ==> call_requires(cb, (inst,)),
        ensures
            final(self).shred_callback() == old(self).shred_callback(),
            final(self).instruction_callback() == old(self).instruction_callback(),
            final(self).calls() == if old(self).instruction_callback() is Some {
                old(self).calls().push(Call::Instruction(*inst))
            } else {
                old(self).calls()
            },
            old(self).instruction_callback() matches Some(cb) ==> call_ensures(cb, (inst,), ()),
    {
        if let Some(cb) = &self.on_instruction {
            cb(inst);
            self.calls = Ghost(self.calls@.push(Call::Instruction(*inst)));
        }
    }
}

} // verus!
