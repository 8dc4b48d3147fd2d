use ping_dispatch::identity::{Address, FreshnessToken};
use ping_dispatch::payload::{
    build_batch, build_instructions, build_message, COMPUTE_BUDGET_PROGRAM, COMPUTE_UNIT_LIMIT,
    COMPUTE_UNIT_PRICE, SYSTEM_PROGRAM,
};
use solana_sdk::compute_budget::ComputeBudgetInstruction;
use solana_sdk::message::Message;
use solana_sdk::pubkey::Pubkey;
use solana_sdk::system_instruction;

fn payer() -> Address {
    let mut bytes = [0u8; 32];
    for (i, byte) in bytes.iter_mut().enumerate() {
        *byte = 200 - i as u8;
    }
    Address { bytes }
}

fn token(seed: u8) -> FreshnessToken {
    FreshnessToken { anchor: [seed; 32], last_valid_height: 1_000 }
}

fn expected_message(payer: &Address, anchor: &[u8; 32], lamports: u64) -> Vec<u8> {
    let mut bytes: Vec<u8> = vec![1, 0, 2, 3];
    bytes.extend_from_slice(&payer.bytes);
    bytes.extend_from_slice(&SYSTEM_PROGRAM);
    bytes.extend_from_slice(&COMPUTE_BUDGET_PROGRAM);
    bytes.extend_from_slice(anchor);
    bytes.push(3);
    bytes.extend_from_slice(&[2, 0, 9, 3]);
    bytes.extend_from_slice(&1_000_000u64.to_le_bytes());
    bytes.extend_from_slice(&[2, 0, 5, 2]);
    bytes.extend_from_slice(&450u32.to_le_bytes());
    bytes.extend_from_slice(&[1, 2, 0, 0, 12, 2, 0, 0, 0]);
    bytes.extend_from_slice(&lamports.to_le_bytes());
    bytes
}

#[test]
fn fixed_parameters_are_those_of_a_ping() {
    assert_eq!(COMPUTE_UNIT_PRICE, 1_000_000);
    assert_eq!(COMPUTE_UNIT_LIMIT, 450);
}

#[test]
fn program_addresses_match_the_sdk() {
    assert_eq!(COMPUTE_BUDGET_PROGRAM, solana_sdk::compute_budget::id().to_bytes());
    assert_eq!(SYSTEM_PROGRAM, solana_sdk::system_program::id().to_bytes());
}

#[test]
fn instructions_of_a_payload_are_price_limit_transfer() {
    let payer = payer();
    let list = build_instructions(&payer, 7);
    assert_eq!(list.len(), 3);

    assert_eq!(list[0].program.bytes, COMPUTE_BUDGET_PROGRAM);
    assert!(list[0].accounts.is_empty());
    assert_eq!(list[0].data, vec![3, 0x40, 0x42, 0x0f, 0, 0, 0, 0, 0]);

    assert_eq!(list[1].program.bytes, COMPUTE_BUDGET_PROGRAM);
    assert!(list[1].accounts.is_empty());
    assert_eq!(list[1].data, vec![2, 0xc2, 0x01, 0, 0]);

    assert_eq!(list[2].program.bytes, SYSTEM_PROGRAM);
    assert_eq!(list[2].accounts.len(), 2);
    assert_eq!(list[2].accounts[0].address, payer);
    assert!(list[2].accounts[0].is_signer);
    assert!(list[2].accounts[0].is_writable);
    assert_eq!(list[2].accounts[1].address, payer);
    assert!(!list[2].accounts[1].is_signer);
    assert!(list[2].accounts[1].is_writable);
    assert_eq!(list[2].data, vec![2, 0, 0, 0, 7, 0, 0, 0, 0, 0, 0, 0]);
}

#[test]
fn transfer_amount_is_the_position() {
    let payer = payer();
    let list = build_instructions(&payer, 0x0102_0304_0506_0708);
    assert_eq!(list[2].data, vec![2, 0, 0, 0, 8, 7, 6, 5, 4, 3, 2, 1]);
    let last = build_instructions(&payer, u64::MAX);
    assert_eq!(last[2].data, vec![2, 0, 0, 0, 255, 255, 255, 255, 255, 255, 255, 255]);
}

#[test]
fn message_has_the_wire_layout() {
    let payer = payer();
    let token = token(9);
    assert_eq!(build_message(&payer, &token, 0), expected_message(&payer, &token.anchor, 0));
    assert_eq!(build_message(&payer, &token, 513), expected_message(&payer, &token.anchor, 513));
}

#[test]
fn message_is_what_the_sdk_compiles() {
    let payer = payer();
    let token = token(33);
    let key = Pubkey::from(payer.bytes);
    for index in [0u64, 1, 2, 77, u64::MAX] {
        let direct = Message::new_with_blockhash(
            &[
                ComputeBudgetInstruction::set_compute_unit_price(1_000_000),
                ComputeBudgetInstruction::set_compute_unit_limit(450),
                system_instruction::transfer(&key, &key, index),
            ],
            Some(&key),
            &solana_sdk::hash::Hash::from(token.anchor),
        );
        let bytes = build_message(&payer, &token, index);
        assert_eq!(bytes, direct.serialize());
        let parsed: Message = bincode::deserialize(&bytes).unwrap();
        assert_eq!(parsed, direct);
        assert_eq!(parsed.recent_blockhash.to_bytes(), token.anchor);
        assert_eq!(parsed.account_keys[0], key);
    }
}

#[test]
fn batch_of_none_is_empty() {
    assert!(build_batch(&payer(), &token(1), 0).is_empty());
}

#[test]
fn batch_of_one() {
    let payer = payer();
    let token = token(1);
    let batch = build_batch(&payer, &token, 1);
    assert_eq!(batch, vec![expected_message(&payer, &token.anchor, 0)]);
}

#[test]
fn batch_holds_one_payload_per_position() {
    let payer = payer();
    let token = token(4);
    let batch = build_batch(&payer, &token, 3);
    assert_eq!(batch.len(), 3);
    for (index, bytes) in batch.iter().enumerate() {
        assert_eq!(bytes, &build_message(&payer, &token, index as u64));
        assert_eq!(bytes, &expected_message(&payer, &token.anchor, index as u64));
    }
}

#[test]
fn payloads_of_a_batch_are_pairwise_different() {
    let batch = build_batch(&payer(), &token(4), 40);
    assert_eq!(batch.len(), 40);
    for i in 0..batch.len() {
        for j in (i + 1)..batch.len() {
            assert_ne!(batch[i], batch[j]);
        }
    }
}

#[test]
fn fresh_token_gives_a_new_payload() {
    let payer = payer();
    let old = build_message(&payer, &token(1), 5);
    let new = build_message(&payer, &token(2), 5);
    assert_ne!(old, new);
    assert_eq!(old.len(), new.len());
    assert_eq!(new, expected_message(&payer, &[2; 32], 5));
}

#[test]
fn payload_depends_on_the_payer() {
    let other = Address { bytes: [5; 32] };
    let token = token(1);
    assert_ne!(build_message(&payer(), &token, 5), build_message(&other, &token, 5));
    assert_eq!(build_message(&other, &token, 5), expected_message(&other, &token.anchor, 5));
}

#[test]
fn message_ends_with_the_transfer_data() {
    let payer = payer();
    let token = token(7);
    for index in [0u64, 1, 255, 256, 1 << 40, u64::MAX] {
        let bytes = build_message(&payer, &token, index);
        let mut tail = vec![2u8, 0, 0, 0];
        tail.extend_from_slice(&index.to_le_bytes());
        assert!(bytes.ends_with(&tail));
        let list = build_instructions(&payer, index);
        assert!(bytes.ends_with(&list[2].data));
    }
}
