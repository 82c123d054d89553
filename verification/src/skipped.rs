//! The ledger of skipped blocks: block numbers that scraping gave up on.
//! A number goes in once and never leaves.

use crate::error::ProtocolViolation;
use crate::natural::Natural;
use vstd::prelude::*;

verus! {

/// The numbers that a list of naturals holds, in its order.
pub open spec fn block_numbers(s: Seq<Natural>) -> Seq<nat> {
    Seq::new(s.len(), |i: int| s[i]@)
}

/// The set of skipped block numbers. No number is held twice.
#[derive(Debug)]
pub struct SkippedBlocks {
    blocks: Vec<Natural>,
}

impl View for SkippedBlocks {
    type V = Set<nat>;

    closed spec fn view(&self) -> Set<nat> {
        block_numbers(self.blocks@).to_set()
    }
}

impl Clone for SkippedBlocks {
    fn clone(&self) -> (r: Self)
        ensures
            r@ == self@,
    {
        proof {
            use_type_invariant(self);
        }
        let mut blocks: Vec<Natural> = Vec::new();
        let mut i: usize = 0;
        while i < self.blocks.len()
            invariant
                i <= self.blocks.len(),
                blocks.len() == i,
                forall|j: int| 0 <= j < i ==> blocks[j]@ == self.blocks[j]@,
            decreases self.blocks.len() - i,
        {
            blocks.push(self.blocks[i].clone());
            i += 1;
        }
        assert(block_numbers(blocks@) =~= block_numbers(self.blocks@));
        SkippedBlocks { blocks }
    }
}

/// The position of a number in the list, if it is there.
fn find_block(blocks: &Vec<Natural>, block_number: &Natural) -> (r: Option<usize>)
    ensures
        match r {
            Some(i) => i < blocks.len() && blocks[i as int]@ == block_number@,
            None => !block_numbers(blocks@).contains(block_number@),
        },
{
    let mut i: usize = 0;
    while i < blocks.len()
        invariant
            i <= blocks.len(),
            forall|j: int| 0 <= j < i ==> blocks[j]@ != block_number@,
        decreases blocks.len() - i,
    {
        if blocks[i].equals(block_number) {
            return Some(i);
        }
        i += 1;
    }
    proof {
        let s = block_numbers(blocks@);
        if s.contains(block_number@) {
            let j = choose|j: int| 0 <= j < s.len() && s[j] == block_number@;
            assert(blocks[j]@ == block_number@);
        }
    }
    None
}

impl SkippedBlocks {
    #[verifier::type_invariant]
    spec fn each_once(self) -> bool {
        block_numbers(self.blocks@).no_duplicates()
    }

    /// A ledger without skipped blocks.
    pub fn new() -> (r: SkippedBlocks)
        ensures
            r@ == Set::<nat>::empty(),
    {
        let r = SkippedBlocks { blocks: Vec::new() };
        assert(r@ =~= Set::<nat>::empty());
        r
    }

    /// Whether the block was skipped.
    pub fn contains(&self, block_number: &Natural) -> (r: bool)
        ensures
            r == self@.contains(block_number@),
    {
        match find_block(&self.blocks, block_number) {
            Some(i) => {
                assert(block_numbers(self.blocks@)[i as int] == block_number@);
                true
            },
            None => false,
        }
    }

    /// The number of skipped blocks.
    pub fn len(&self) -> (r: usize)
        ensures
            self@.finite(),
            r == self@.len(),
    {
        proof {
            use_type_invariant(self);
            block_numbers(self.blocks@).unique_seq_to_set();
        }
        self.blocks.len()
    }

    /// Records a block as skipped. Fails, and changes nothing, where the
    /// block was skipped before.
    pub fn record_skipped(&mut self, block_number: Natural) -> (r: Result<(), ProtocolViolation>)
        ensures
            old(self)@.contains(block_number@) ==> r == Err::<(), ProtocolViolation>(
                ProtocolViolation::BlockAlreadySkipped,
            ) && *final(self) == *old(self),
            !old(self)@.contains(block_number@) ==> r is Ok && final(self)@ == old(self)@.insert(
                block_number@,
            ),
    {
        proof {
            use_type_invariant(&*self);
        }
        match find_block(&self.blocks, &block_number) {
            Some(i) => {
                assert(block_numbers(self.blocks@)[i as int] == block_number@);
                Err(ProtocolViolation::BlockAlreadySkipped)
            },
            None => {
                let ghost before = block_numbers(self.blocks@);
                let ghost n = block_number@;
                let mut blocks: Vec<Natural> = Vec::new();
                std::mem::swap(&mut blocks, &mut self.blocks);
                blocks.push(block_number);
                proof {
                    let after = block_numbers(blocks@);
                    assert(after =~= before.push(n));
                    assert forall|i: int, j: int|
                        0 <= i < after.len() && 0 <= j < after.len() && i != j implies after[i]
                        != after[j] by {
                        if i < before.len() {
                            assert(before[i] == after[i]);
                        }
                        if j < before.len() {
                            assert(before[j] == after[j]);
                        }
                    }
                    assert(after.to_set() =~= before.to_set().insert(n)) by {
                        assert forall|x: nat| after.to_set().contains(x) <==> before.to_set().insert(
                            n,
                        ).contains(x) by {
                            if before.contains(x) {
                                let k = choose|k: int| 0 <= k < before.len() && before[k] == x;
                                assert(after[k] == x);
                            }
                            if x == n {
                                assert(after[before.len() as int] == x);
                            }
                            if after.contains(x) {
                                let k = choose|k: int| 0 <= k < after.len() && after[k] == x;
                                if k < before.len() {
                                    assert(before[k] == x);
                                }
                            }
                        }
                    }
                }
                self.blocks = blocks;
                Ok(())
            },
        }
    }
}

} // verus!
