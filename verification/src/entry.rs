//! The entries of a block and their transactions, as far as the pipeline reads
//! them.

use vstd::prelude::*;

verus! {

/// An instruction with its accounts as positions among the account keys.
#[derive(Debug)]
pub struct CompiledInstruction {
    pub program_id_index: u8,
    pub accounts: Vec<u8>,
    pub data: Vec<u8>,
}

/// A transaction with its static account keys.
#[derive(Debug)]
pub struct Transaction {
    pub signatures: Vec<[u8; 64]>,
    pub account_keys: Vec<[u8; 32]>,
    pub instructions: Vec<CompiledInstruction>,
}

/// Transactions that were recorded together.
#[derive(Debug)]
pub struct Entry {
    pub transactions: Vec<Transaction>,
}

/// The transactions of the entries, in order.
pub open spec fn transactions_of(entries: Seq<Entry>) -> Seq<Transaction> {
    entries.map_values(|entry: Entry| entry.transactions@).flatten()
}

/// `triples` are the instructions: of each the program, the accounts and the
/// data.
pub open spec fn are_triples(
    triples: Seq<(u8, Vec<u8>, Vec<u8>)>,
    instructions: Seq<CompiledInstruction>,
) -> bool {
    &&& triples.len() == instructions.len()
    &&& forall|i: int|
        0 <= i < triples.len() ==> {
            &&& (#[trigger] triples[i]).0 == instructions[i].program_id_index
            &&& triples[i].1@ == instructions[i].accounts@
            &&& triples[i].2@ == instructions[i].data@
        }
}

/// The triples hold the same programs, accounts and data.
pub open spec fn same_triples(
    a: Seq<(u8, Vec<u8>, Vec<u8>)>,
    b: Seq<(u8, Vec<u8>, Vec<u8>)>,
) -> bool {
    &&& a.len() == b.len()
    &&& forall|i: int|
        0 <= i < a.len() ==> {
            &&& (#[trigger] a[i]).0 == (#[trigger] b[i]).0
            &&& a[i].1@ == b[i].1@
            &&& a[i].2@ == b[i].2@
        }
}

/// The transactions hold the same.
pub open spec fn same_transaction(a: Transaction, b: Transaction) -> bool {
    &&& a.signatures@ == b.signatures@
    &&& a.account_keys@ == b.account_keys@
    &&& a.instructions@.len() == b.instructions@.len()
    &&& forall|i: int|
        0 <= i < a.instructions@.len() ==> {
            let (x, y) = (#[trigger] a.instructions@[i], b.instructions@[i]);
            &&& x.program_id_index == y.program_id_index
            &&& x.accounts@ == y.accounts@
            &&& x.data@ == y.data@
        }
}

/// The transactions hold the same, one by one.
pub open spec fn same_transactions(a: Seq<Transaction>, b: Seq<Transaction>) -> bool {
    &&& a.len() == b.len()
    &&& forall|i: int| 0 <= i < a.len() ==> same_transaction(#[trigger] a[i], b[i])
}

/// Of each instruction the program, the accounts and the data.
pub fn triples_of(instructions: &Vec<CompiledInstruction>) -> (triples: Vec<
    (u8, Vec<u8>, Vec<u8>),
>)
    ensures
        are_triples(triples@, instructions@),
{
    let mut triples: Vec<(u8, Vec<u8>, Vec<u8>)> = Vec::new();
    let mut i: usize = 0;
    while i < instructions.len()
        invariant
            i <= instructions@.len(),
            are_triples(triples@, instructions@.take(i as int)),
        decreases instructions@.len() - i,
    {
        let ix = &instructions[i];
        let accounts: Vec<u8> = ix.accounts.clone();
        let data: Vec<u8> = ix.data.clone();
        assert(accounts@ =~= ix.accounts@ && data@ =~= ix.data@);
        triples.push((ix.program_id_index, accounts, data));
        i = i + 1;
    }
    assert(instructions@.take(i as int) =~= instructions@);
    triples
}

} // verus!
