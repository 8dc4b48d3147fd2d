//! The message batch builder: the instructions of one ping payload and the
//! message bytes that a signer signs.
//!
//! Instructions and messages are produced by `solana_sdk`; this module gives
//! them plain-value models and proves what the batch as a whole looks like.

use crate::identity::{Address, FreshnessToken};
use solana_sdk::compute_budget::ComputeBudgetInstruction;
use solana_sdk::instruction::AccountMeta;
use solana_sdk::message::Message;
use solana_sdk::pubkey::Pubkey;
use solana_sdk::system_instruction;
use vstd::bytes::{
    lemma_auto_spec_u64_to_from_le_bytes, spec_u32_to_le_bytes, spec_u64_to_le_bytes,
};
use vstd::prelude::*;

verus! {

/// Price, in micro-lamports per compute unit, that every ping payload offers.
pub const COMPUTE_UNIT_PRICE: u64 = 1_000_000;

/// Compute units that every ping payload asks for.
pub const COMPUTE_UNIT_LIMIT: u32 = 450;

/// Address of the compute budget program.
pub const COMPUTE_BUDGET_PROGRAM: [u8; 32] = [
    3, 6, 70, 111, 229, 33, 23, 50, 255, 236, 173, 186, 114, 195, 155, 231,
    188, 140, 229, 187, 197, 247, 18, 107, 44, 67, 155, 58, 64, 0, 0, 0,
];

/// Address of the system program.
pub const SYSTEM_PROGRAM: [u8; 32] = [
    0, 0, 0, 0, 0, 0, 0, 0, 0, 0, 0, 0, 0, 0, 0, 0,
    0, 0, 0, 0, 0, 0, 0, 0, 0, 0, 0, 0, 0, 0, 0, 0,
];

/// An account that an instruction touches.
#[derive(Clone, Copy, Debug, PartialEq, Eq)]
pub struct AccountRef {
    pub address: Address,
    pub is_signer: bool,
    pub is_writable: bool,
}

impl View for AccountRef {
    type V = (Seq<u8>, bool, bool);

    open spec fn view(&self) -> (Seq<u8>, bool, bool) {
        (self.address.bytes@, self.is_signer, self.is_writable)
    }
}

/// One instruction of a payload, before it is compiled into a message.
#[derive(Clone, Debug, PartialEq, Eq)]
pub struct Instruction {
    pub program: Address,
    pub accounts: Vec<AccountRef>,
    pub data: Vec<u8>,
}

/// What an [`Instruction`] holds, as mathematical values.
pub ghost struct InstructionView {
    pub program: Seq<u8>,
    pub accounts: Seq<(Seq<u8>, bool, bool)>,
    pub data: Seq<u8>,
}

impl View for Instruction {
    type V = InstructionView;

    open spec fn view(&self) -> InstructionView {
        InstructionView {
            program: self.program.bytes@,
            accounts: self.accounts@.map_values(|a: AccountRef| a@),
            data: self.data@,
        }
    }
}

/// The views of a list of instructions, in order.
pub open spec fn instruction_views(list: Seq<Instruction>) -> Seq<InstructionView> {
    list.map_values(|ix: Instruction| ix@)
}

/// The instruction that sets the compute unit price: tag 3 and the price in
/// little-endian order, addressed to the compute budget program.
pub open spec fn unit_price_model(micro_lamports: u64) -> InstructionView {
    InstructionView {
        program: COMPUTE_BUDGET_PROGRAM@,
        accounts: Seq::empty(),
        data: seq![3u8] + spec_u64_to_le_bytes(micro_lamports),
    }
}

/// The instruction that sets the compute unit limit: tag 2 and the limit in
/// little-endian order, addressed to the compute budget program.
pub open spec fn unit_limit_model(units: u32) -> InstructionView {
    InstructionView {
        program: COMPUTE_BUDGET_PROGRAM@,
        accounts: Seq::empty(),
        data: seq![2u8] + spec_u32_to_le_bytes(units),
    }
}

/// The system program's transfer: a four-byte tag 2 and the amount, both in
/// little-endian order; the source signs and both accounts are writable.
pub open spec fn transfer_model(from: Address, to: Address, lamports: u64) -> InstructionView {
    InstructionView {
        program: SYSTEM_PROGRAM@,
        accounts: seq![(from.bytes@, true, true), (to.bytes@, false, true)],
        data: closing_data(lamports),
    }
}

/// The three instructions of the payload at position `index`: the fixed
/// price and limit, then a transfer of `index` lamports from the payer to
/// itself. The amount is what tells the payloads of one batch apart.
pub open spec fn ping_instructions(payer: Address, index: u64) -> Seq<InstructionView> {
    seq![
        unit_price_model(COMPUTE_UNIT_PRICE),
        unit_limit_model(COMPUTE_UNIT_LIMIT),
        transfer_model(payer, payer, index),
    ]
}

/// Upper bound on the distinct account keys that a list of instructions can
/// name: one program and the listed accounts for each.
pub open spec fn key_slots(list: Seq<InstructionView>) -> nat
    decreases list.len(),
{
    if list.len() == 0 {
        0
    } else {
        key_slots(list.drop_last()) + 1 + list.last().accounts.len()
    }
}

/// The serialized message that `solana_sdk` compiles from the instructions,
/// the fee payer and the recent blockhash.
pub uninterp spec fn compiled_message(
    instructions: Seq<InstructionView>,
    payer: Seq<u8>,
    blockhash: Seq<u8>,
) -> Seq<u8>;

/// Whether `bytes` ends with `tail`.
pub open spec fn ends_with(bytes: Seq<u8>, tail: Seq<u8>) -> bool {
    bytes.len() >= tail.len() && bytes.subrange(bytes.len() - tail.len(), bytes.len() as int) == tail
}

/// The data of the transfer that closes the payload at position `index`: a
/// four-byte tag 2 and the amount, both in little-endian order.
pub open spec fn closing_data(index: u64) -> Seq<u8> {
    seq![2u8, 0u8, 0u8, 0u8] + spec_u64_to_le_bytes(index)
}

/// The message bytes of the payload at position `index`.
pub open spec fn ping_payload(payer: Address, anchor: Seq<u8>, index: u64) -> Seq<u8> {
    compiled_message(ping_instructions(payer, index), payer.bytes@, anchor)
}

/// Calls `ComputeBudgetInstruction::set_compute_unit_price` and copies the
/// instruction out field by field. Trusted: the result is the borsh encoding
/// of the `SetComputeUnitPrice` variant with no accounts.
#[verifier::external_body]
fn unit_price_instruction(micro_lamports: u64) -> (ix: Instruction)
    ensures
        ix@ == unit_price_model(micro_lamports),
{
    let made = ComputeBudgetInstruction::set_compute_unit_price(micro_lamports);
    Instruction {
        program: Address { bytes: made.program_id.to_bytes() },
        accounts: made.accounts.iter().map(|a| AccountRef {
            address: Address { bytes: a.pubkey.to_bytes() },
            is_signer: a.is_signer,
            is_writable: a.is_writable,
        }).collect(),
        data: made.data,
    }
}

/// Calls `ComputeBudgetInstruction::set_compute_unit_limit` and copies the
/// instruction out field by field. Trusted: the result is the borsh encoding
/// of the `SetComputeUnitLimit` variant with no accounts.
#[verifier::external_body]
fn unit_limit_instruction(units: u32) -> (ix: Instruction)
    ensures
        ix@ == unit_limit_model(units),
{
    let made = ComputeBudgetInstruction::set_compute_unit_limit(units);
    Instruction {
        program: Address { bytes: made.program_id.to_bytes() },
        accounts: made.accounts.iter().map(|a| AccountRef {
            address: Address { bytes: a.pubkey.to_bytes() },
            is_signer: a.is_signer,
            is_writable: a.is_writable,
        }).collect(),
        data: made.data,
    }
}

/// Calls `system_instruction::transfer` and copies the instruction out field
/// by field. Trusted: the result is the bincode encoding of the `Transfer`
/// variant, with the source as writable signer and the destination writable.
#[verifier::external_body]
fn transfer_instruction(from: &Address, to: &Address, lamports: u64) -> (ix: Instruction)
    ensures
        ix@ == transfer_model(*from, *to, lamports),
{
    let made = system_instruction::transfer(&Pubkey::from(from.bytes), &Pubkey::from(to.bytes), lamports);
    Instruction {
        program: Address { bytes: made.program_id.to_bytes() },
        accounts: made.accounts.iter().map(|a| AccountRef {
            address: Address { bytes: a.pubkey.to_bytes() },
            is_signer: a.is_signer,
            is_writable: a.is_writable,
        }).collect(),
        data: made.data,
    }
}

/// Calls `Message::new_with_blockhash` on the instructions, with `payer` as
/// fee payer, and returns the message's `serialize()` bytes. Trusted: the
/// bytes depend on the arguments alone, and, the instructions being the last
/// field of a message and the data the last field of an instruction, they
/// end with the data of the last instruction. The bounds keep the compiler's
/// key count within a byte and every length within the short-vector limit.
#[verifier::external_body]
fn compile_message(instructions: &Vec<Instruction>, payer: &Address, anchor: &[u8; 32]) -> (bytes: Vec<u8>)
    requires
        key_slots(instruction_views(instructions@)) + 1 <= 255,
        forall|k: int| 0 <= k < instructions.len() ==> instructions[k].data.len() <= 65535,
    ensures
        bytes@ == compiled_message(instruction_views(instructions@), payer.bytes@, anchor@),
        instructions.len() > 0 ==> ends_with(bytes@, instructions@.last().data@),
{
    let list: Vec<solana_sdk::instruction::Instruction> = instructions.iter().map(|ix| solana_sdk::instruction::Instruction {
        program_id: Pubkey::from(ix.program.bytes),
        accounts: ix.accounts.iter().map(|a| AccountMeta {
            pubkey: Pubkey::from(a.address.bytes),
            is_signer: a.is_signer,
            is_writable: a.is_writable,
        }).collect(),
        data: ix.data.clone(),
    }).collect();
    Message::new_with_blockhash(&list, Some(&Pubkey::from(payer.bytes)), &solana_sdk::hash::Hash::from(*anchor)).serialize()
}

/// Builds the instructions of the payload at position `index`.
pub fn build_instructions(payer: &Address, index: u64) -> (list: Vec<Instruction>)
    ensures
        instruction_views(list@) == ping_instructions(*payer, index),
{
    let mut list: Vec<Instruction> = Vec::new();
    list.push(unit_price_instruction(COMPUTE_UNIT_PRICE));
    list.push(unit_limit_instruction(COMPUTE_UNIT_LIMIT));
    list.push(transfer_instruction(payer, payer, index));
    assert(instruction_views(list@) =~= ping_instructions(*payer, index));
    list
}

/// Builds the message bytes of the payload at position `index`, bound to
/// `token`.
pub fn build_message(payer: &Address, token: &FreshnessToken, index: u64) -> (bytes: Vec<u8>)
    ensures
        bytes@ == ping_payload(*payer, token.anchor@, index),
        ends_with(bytes@, closing_data(index)),
{
    let list = build_instructions(payer, index);
    proof {
        lemma_ping_instructions_are_small(*payer, index);
        assert forall|k: int| 0 <= k < list.len() implies list[k].data.len() <= 65535 by {
            assert(instruction_views(list@)[k] == list[k]@);
        }
        assert(instruction_views(list@)[2] == list@.last()@);
    }
    compile_message(&list, payer, &token.anchor)
}

/// Builds the message bytes of a whole batch: one payload per position
/// `0..count`, in order, all bound to `token`.
pub fn build_batch(payer: &Address, token: &FreshnessToken, count: u64) -> (batch: Vec<Vec<u8>>)
    requires
        count <= usize::MAX,
    ensures
        batch.len() == count,
        forall|i: int| 0 <= i < count ==> batch[i]@ == ping_payload(*payer, token.anchor@, i as u64),
        forall|i: int, j: int| 0 <= i < j < count ==> batch[i]@ != batch[j]@,
{
    let mut batch: Vec<Vec<u8>> = Vec::new();
    let mut index: u64 = 0;
    while index < count
        invariant
            index <= count,
            batch.len() == index,
            forall|i: int| 0 <= i < index ==> batch[i]@ == ping_payload(*payer, token.anchor@, i as u64),
            forall|i: int| 0 <= i < index ==> ends_with(#[trigger] batch[i]@, closing_data(i as u64)),
        decreases count - index,
    {
        batch.push(build_message(payer, token, index));
        index += 1;
    }
    proof {
        assert forall|i: int, j: int| 0 <= i < j < count implies batch[i]@ != batch[j]@ by {
            lemma_closing_data_tells_payloads_apart(batch[i]@, batch[j]@, i as u64, j as u64);
        }
    }
    batch
}

/// The instructions of a ping payload name at most five key slots and carry
/// at most twelve bytes of data each.
pub proof fn lemma_ping_instructions_are_small(payer: Address, index: u64)
    ensures
        key_slots(ping_instructions(payer, index)) == 5,
        forall|k: int| 0 <= k < 3 ==> (#[trigger] ping_instructions(payer, index)[k]).data.len() <= 12,
{
    let list = ping_instructions(payer, index);
    lemma_auto_spec_u64_to_from_le_bytes();
    vstd::bytes::lemma_auto_spec_u32_to_from_le_bytes();
    assert(list.drop_last() =~= seq![list[0], list[1]]);
    assert(list.drop_last().drop_last() =~= seq![list[0]]);
    assert(list.drop_last().drop_last().drop_last() =~= Seq::<InstructionView>::empty());
    reveal_with_fuel(key_slots, 4);
}

/// Messages that end with the closing data of different positions differ.
pub proof fn lemma_closing_data_tells_payloads_apart(
    first_bytes: Seq<u8>,
    second_bytes: Seq<u8>,
    first: u64,
    second: u64,
)
    requires
        ends_with(first_bytes, closing_data(first)),
        ends_with(second_bytes, closing_data(second)),
        first != second,
    ensures
        first_bytes != second_bytes,
{
    lemma_auto_spec_u64_to_from_le_bytes();
    let a = closing_data(first);
    let b = closing_data(second);
    assert(a.len() == 12 && b.len() == 12);
    if first_bytes == second_bytes {
        assert(a == b);
        assert(a.subrange(4, 12) =~= spec_u64_to_le_bytes(first));
        assert(b.subrange(4, 12) =~= spec_u64_to_le_bytes(second));
        assert(vstd::bytes::spec_u64_from_le_bytes(spec_u64_to_le_bytes(first)) == first);
        assert(vstd::bytes::spec_u64_from_le_bytes(spec_u64_to_le_bytes(second)) == second);
    }
}

/// Payloads at different positions differ: no two payloads of one batch are
/// built from the same instructions.
pub proof fn lemma_payloads_are_distinguishable(payer: Address, first: u64, second: u64)
    requires
        first != second,
    ensures
        ping_instructions(payer, first) != ping_instructions(payer, second),
{
    lemma_auto_spec_u64_to_from_le_bytes();
    let a = ping_instructions(payer, first)[2].data;
    let b = ping_instructions(payer, second)[2].data;
    if a == b {
        assert(a.subrange(4, 12) =~= spec_u64_to_le_bytes(first));
        assert(b.subrange(4, 12) =~= spec_u64_to_le_bytes(second));
        assert(vstd::bytes::spec_u64_from_le_bytes(spec_u64_to_le_bytes(first)) == first);
        assert(vstd::bytes::spec_u64_from_le_bytes(spec_u64_to_le_bytes(second)) == second);
    }
}

} // verus!
