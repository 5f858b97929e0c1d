use dex_ledger::ledger::{LedgerError, Module as Ledger};
use dex_ledger::types::{AccountId, TokenId};

const A: AccountId = 1;
const B: AccountId = 2;

fn ledger_with_tokens(n: u64) -> (Ledger, Vec<TokenId>) {
    let mut l = Ledger::new();
    let mut ids = Vec::new();
    for _ in 0..n {
        ids.push(l.create_token(&A, false, &vec![1u8, 2, 3]).unwrap());
    }
    (l, ids)
}

#[test]
fn create_token_assigns_sequential_ids() {
    let mut l = Ledger::new();
    assert_eq!(l.create_token(&A, false, &vec![]), Ok(0));
    assert_eq!(l.create_token(&B, true, &vec![7u8, 8]), Ok(1));
    let t = l.token(1).unwrap();
    assert_eq!(t.creator, B);
    assert!(t.is_nf);
    assert_eq!(t.uri, vec![7u8, 8]);
    assert!(l.token(2).is_none());
}

#[test]
fn mint_adds_to_balance() {
    let (mut l, ids) = ledger_with_tokens(1);
    assert_eq!(l.balance_of(&A, &ids[0]), 0);
    assert_eq!(l.mint(&A, &ids[0], 40), Ok(()));
    assert_eq!(l.mint(&A, &ids[0], 2), Ok(()));
    assert_eq!(l.balance_of(&A, &ids[0]), 42);
    assert_eq!(l.balance_of(&B, &ids[0]), 0);
}

#[test]
fn mint_past_max_fails_and_keeps_balance() {
    let (mut l, ids) = ledger_with_tokens(1);
    assert_eq!(l.mint(&A, &ids[0], u64::MAX), Ok(()));
    assert_eq!(l.mint(&A, &ids[0], 1), Err(LedgerError::Overflow));
    assert_eq!(l.balance_of(&A, &ids[0]), u64::MAX);
}

#[test]
fn burn_takes_from_balance() {
    let (mut l, ids) = ledger_with_tokens(1);
    l.mint(&A, &ids[0], 10).unwrap();
    assert_eq!(l.burn(&A, &ids[0], 4), Ok(()));
    assert_eq!(l.balance_of(&A, &ids[0]), 6);
}

#[test]
fn burn_beyond_balance_fails() {
    let (mut l, ids) = ledger_with_tokens(1);
    l.mint(&A, &ids[0], 10).unwrap();
    assert_eq!(l.burn(&A, &ids[0], 11), Err(LedgerError::InsufficientBalance));
    assert_eq!(l.balance_of(&A, &ids[0]), 10);
}

#[test]
fn transfer_moves_units() {
    let (mut l, ids) = ledger_with_tokens(1);
    l.mint(&A, &ids[0], 10).unwrap();
    assert_eq!(l.transfer_from(&A, &B, &ids[0], 7), Ok(()));
    assert_eq!(l.balance_of(&A, &ids[0]), 3);
    assert_eq!(l.balance_of(&B, &ids[0]), 7);
}

#[test]
fn transfer_shortfall_fails() {
    let (mut l, ids) = ledger_with_tokens(1);
    l.mint(&A, &ids[0], 5).unwrap();
    assert_eq!(l.transfer_from(&A, &B, &ids[0], 6), Err(LedgerError::InsufficientBalance));
    assert_eq!(l.balance_of(&A, &ids[0]), 5);
    assert_eq!(l.balance_of(&B, &ids[0]), 0);
}

#[test]
fn transfer_overflow_at_receiver_fails() {
    let (mut l, ids) = ledger_with_tokens(1);
    l.mint(&A, &ids[0], 5).unwrap();
    l.mint(&B, &ids[0], u64::MAX).unwrap();
    assert_eq!(l.transfer_from(&A, &B, &ids[0], 1), Err(LedgerError::Overflow));
    assert_eq!(l.balance_of(&A, &ids[0]), 5);
    assert_eq!(l.balance_of(&B, &ids[0]), u64::MAX);
}

#[test]
fn self_transfer_is_a_no_op_for_any_amount() {
    let (mut l, ids) = ledger_with_tokens(1);
    l.mint(&A, &ids[0], 5).unwrap();
    assert_eq!(l.transfer_from(&A, &A, &ids[0], u64::MAX), Ok(()));
    assert_eq!(l.balance_of(&A, &ids[0]), 5);
    assert_eq!(l.transfer_from(&B, &B, &ids[0], 1), Ok(()));
    assert_eq!(l.balance_of(&B, &ids[0]), 0);
}

#[test]
fn batch_mint_credits_each_element() {
    let (mut l, ids) = ledger_with_tokens(2);
    let batch = vec![ids[0], ids[1], ids[0]];
    assert_eq!(l.batch_mint(&A, &batch, vec![1, 2, 3]), Ok(()));
    assert_eq!(l.balance_of(&A, &ids[0]), 4);
    assert_eq!(l.balance_of(&A, &ids[1]), 2);
}

#[test]
fn batch_mint_length_mismatch() {
    let (mut l, ids) = ledger_with_tokens(2);
    assert_eq!(l.batch_mint(&A, &ids, vec![1]), Err(LedgerError::ArrayLengthMismatch));
    assert_eq!(l.balance_of(&A, &ids[0]), 0);
}

#[test]
fn batch_mint_failure_rolls_back_earlier_elements() {
    let (mut l, ids) = ledger_with_tokens(2);
    l.mint(&A, &ids[1], u64::MAX).unwrap();
    let r = l.batch_mint(&A, &vec![ids[0], ids[1]], vec![5, 1]);
    assert_eq!(r, Err(LedgerError::Overflow));
    assert_eq!(l.balance_of(&A, &ids[0]), 0);
    assert_eq!(l.balance_of(&A, &ids[1]), u64::MAX);
}

#[test]
fn batch_burn_failure_rolls_back_earlier_elements() {
    let (mut l, ids) = ledger_with_tokens(2);
    l.mint(&A, &ids[0], 10).unwrap();
    l.mint(&A, &ids[1], 1).unwrap();
    let r = l.batch_burn(&A, &vec![ids[0], ids[1]], vec![4, 2]);
    assert_eq!(r, Err(LedgerError::InsufficientBalance));
    assert_eq!(l.balance_of(&A, &ids[0]), 10);
    assert_eq!(l.balance_of(&A, &ids[1]), 1);
    assert_eq!(l.batch_burn(&A, &vec![ids[0], ids[1]], vec![4, 1]), Ok(()));
    assert_eq!(l.balance_of(&A, &ids[0]), 6);
    assert_eq!(l.balance_of(&A, &ids[1]), 0);
}

#[test]
fn batch_transfer_moves_each_element() {
    let (mut l, ids) = ledger_with_tokens(2);
    l.mint(&A, &ids[0], 10).unwrap();
    l.mint(&A, &ids[1], 10).unwrap();
    assert_eq!(l.batch_transfer_from(&A, &B, &ids, vec![3, 9]), Ok(()));
    assert_eq!(l.balance_of(&A, &ids[0]), 7);
    assert_eq!(l.balance_of(&B, &ids[0]), 3);
    assert_eq!(l.balance_of(&A, &ids[1]), 1);
    assert_eq!(l.balance_of(&B, &ids[1]), 9);
}

#[test]
fn batch_transfer_failure_rolls_back_earlier_elements() {
    let (mut l, ids) = ledger_with_tokens(2);
    l.mint(&A, &ids[0], 10).unwrap();
    l.mint(&A, &ids[1], 1).unwrap();
    let r = l.batch_transfer_from(&A, &B, &ids, vec![3, 2]);
    assert_eq!(r, Err(LedgerError::InsufficientBalance));
    assert_eq!(l.balance_of(&A, &ids[0]), 10);
    assert_eq!(l.balance_of(&B, &ids[0]), 0);
    assert_eq!(l.balance_of(&A, &ids[1]), 1);
}

#[test]
fn batch_transfer_to_self_succeeds_unchanged() {
    let (mut l, ids) = ledger_with_tokens(2);
    l.mint(&A, &ids[0], 1).unwrap();
    assert_eq!(l.batch_transfer_from(&A, &A, &ids, vec![u64::MAX]), Ok(()));
    assert_eq!(l.balance_of(&A, &ids[0]), 1);
}

#[test]
fn batch_transfer_length_mismatch() {
    let (mut l, ids) = ledger_with_tokens(2);
    l.mint(&A, &ids[0], 5).unwrap();
    let r = l.batch_transfer_from(&A, &B, &ids, vec![1, 1, 1]);
    assert_eq!(r, Err(LedgerError::ArrayLengthMismatch));
    assert_eq!(l.balance_of(&A, &ids[0]), 5);
}

#[test]
fn balance_of_batch_reads_pairs() {
    let (mut l, ids) = ledger_with_tokens(2);
    l.mint(&A, &ids[0], 3).unwrap();
    l.mint(&B, &ids[1], 4).unwrap();
    let r = l.balance_of_batch(&vec![A, B, B], &vec![ids[0], ids[1], ids[0]]);
    assert_eq!(r, Ok(vec![3, 4, 0]));
    let e = l.balance_of_batch(&vec![A], &vec![ids[0], ids[1]]);
    assert_eq!(e, Err(LedgerError::ArrayLengthMismatch));
}

#[test]
fn sum_of_balances_is_minted_minus_burned() {
    let (mut l, ids) = ledger_with_tokens(1);
    let x = ids[0];
    l.mint(&A, &x, 100).unwrap();
    l.mint(&B, &x, 50).unwrap();
    l.transfer_from(&A, &B, &x, 30).unwrap();
    l.burn(&B, &x, 20).unwrap();
    assert_eq!(l.burn(&A, &x, 1000), Err(LedgerError::InsufficientBalance));
    l.transfer_from(&B, &3, &x, 60).unwrap();
    let total = l.balance_of(&A, &x) + l.balance_of(&B, &x) + l.balance_of(&3, &x);
    assert_eq!(total, 100 + 50 - 20);
}
