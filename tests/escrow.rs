use opensquare::escrow::{Escrow, EscrowError};
use opensquare::primitives::CurrencyId;

#[test]
fn deposit_reserve_and_unreserve() {
    let mut e = Escrow::new();
    assert_eq!(e.deposit(CurrencyId::USDT, 1, 500), Ok(()));
    assert_eq!(e.free_balance(CurrencyId::USDT, 1), 500);
    assert_eq!(e.free_balance(CurrencyId::Native, 1), 0);
    assert_eq!(e.total_issuance(CurrencyId::USDT), 500);
    assert!(e.can_reserve(CurrencyId::USDT, 1, 500));
    assert!(!e.can_reserve(CurrencyId::USDT, 1, 501));
    assert_eq!(e.reserve(CurrencyId::USDT, 1, 600), Err(EscrowError::BalanceTooLow));
    assert_eq!(e.reserve(CurrencyId::USDT, 1, 200), Ok(()));
    assert_eq!(e.free_balance(CurrencyId::USDT, 1), 300);
    assert_eq!(e.reserved_balance(CurrencyId::USDT, 1), 200);
    assert_eq!(e.unreserve(CurrencyId::USDT, 1, 250), 50);
    assert_eq!(e.free_balance(CurrencyId::USDT, 1), 500);
    assert_eq!(e.reserved_balance(CurrencyId::USDT, 1), 0);
}

#[test]
fn repatriate_moves_reserve_to_free() {
    let mut e = Escrow::new();
    e.deposit(CurrencyId::DOT, 1, 100).unwrap();
    e.reserve(CurrencyId::DOT, 1, 80).unwrap();
    assert_eq!(e.repatriate_reserved(CurrencyId::DOT, 1, 2, 30), Ok(0));
    assert_eq!(e.reserved_balance(CurrencyId::DOT, 1), 50);
    assert_eq!(e.free_balance(CurrencyId::DOT, 2), 30);
    assert_eq!(e.repatriate_reserved(CurrencyId::DOT, 1, 2, 70), Ok(20));
    assert_eq!(e.reserved_balance(CurrencyId::DOT, 1), 0);
    assert_eq!(e.free_balance(CurrencyId::DOT, 2), 80);
    assert_eq!(e.total_issuance(CurrencyId::DOT), 100);
}

#[test]
fn deposit_overflow_is_refused() {
    let mut e = Escrow::new();
    e.deposit(CurrencyId::AUSD, 1, u128::MAX).unwrap();
    assert_eq!(e.deposit(CurrencyId::AUSD, 2, 1), Err(EscrowError::Overflow));
    assert_eq!(e.free_balance(CurrencyId::AUSD, 2), 0);
}

#[test]
fn repatriate_to_self_releases_the_reserve() {
    let mut e = Escrow::new();
    e.deposit(CurrencyId::Native, 1, 10).unwrap();
    e.reserve(CurrencyId::Native, 1, 10).unwrap();
    assert_eq!(e.repatriate_reserved(CurrencyId::Native, 1, 1, 4), Ok(0));
    assert_eq!(e.free_balance(CurrencyId::Native, 1), 4);
    assert_eq!(e.reserved_balance(CurrencyId::Native, 1), 6);
}
