use phala_core::assets::{
    is_watched, AssetCommand, Assets, QueryError, Request, Response,
};
use phala_core::contracts::{NativeContext, PushCommand, TransactionStatus};
use phala_core::types::MessageOrigin;

fn account(b: u8) -> Vec<u8> {
    vec![b; 32]
}

fn ctx(block: u64) -> NativeContext {
    NativeContext { block_number: block }
}

fn push(command: AssetCommand, number: u64) -> PushCommand<AssetCommand> {
    PushCommand { command, number }
}

fn issue(ledger: &mut Assets, by: &[u8], symbol: &[u8], total: u128) -> TransactionStatus {
    ledger.apply_command(
        &ctx(1),
        &MessageOrigin::AccountId(by.to_vec()),
        push(AssetCommand::Issue { symbol: symbol.to_vec(), total }, 0),
    )
}

fn transfer(
    ledger: &mut Assets,
    by: &[u8],
    id: u32,
    dest: &[u8],
    value: u128,
) -> TransactionStatus {
    ledger.apply_command(
        &ctx(1),
        &MessageOrigin::AccountId(by.to_vec()),
        push(AssetCommand::Transfer { id, dest: dest.to_vec(), value }, 1),
    )
}

fn destroy(ledger: &mut Assets, by: &[u8], id: u32) -> TransactionStatus {
    ledger.apply_command(
        &ctx(1),
        &MessageOrigin::AccountId(by.to_vec()),
        push(AssetCommand::Destroy { id }, 2),
    )
}

fn balance_of(ledger: &Assets, id: u32, who: &[u8]) -> Result<u128, QueryError> {
    let owner = who.to_vec();
    match ledger.apply_query(
        Some(&owner),
        &Request::Balance { id, account: who.to_vec() },
    ) {
        Response::Balance { balance } => Ok(balance),
        Response::Error(e) => Err(e),
        _ => panic!("unexpected response shape"),
    }
}

#[test]
fn default_policy_watches_nobody() {
    assert!(!is_watched(&account(1)));
}

#[test]
fn issue_credits_the_whole_supply_to_the_issuer() {
    let a = account(1);
    let b = account(2);
    let mut ledger = Assets::new();
    assert_eq!(issue(&mut ledger, &a, b"X", 100), TransactionStatus::Accepted);
    assert_eq!(balance_of(&ledger, 0, &a), Ok(100));
    assert_eq!(balance_of(&ledger, 0, &b), Ok(0));
}

#[test]
fn duplicate_symbol_is_refused() {
    let a = account(1);
    let b = account(2);
    let mut ledger = Assets::new();
    assert_eq!(issue(&mut ledger, &a, b"PHA", 1000), TransactionStatus::Accepted);
    assert_eq!(issue(&mut ledger, &b, b"PHA", 5), TransactionStatus::SymbolExist);
    assert_eq!(issue(&mut ledger, &b, b"OTHER", 5), TransactionStatus::Accepted);
}

#[test]
fn overdraft_is_refused_and_changes_no_balance() {
    let a = account(1);
    let b = account(2);
    let mut ledger = Assets::new();
    assert_eq!(issue(&mut ledger, &a, b"X", 100), TransactionStatus::Accepted);
    assert_eq!(
        transfer(&mut ledger, &a, 0, &b, 101),
        TransactionStatus::InsufficientBalance
    );
    assert_eq!(balance_of(&ledger, 0, &a), Ok(100));
    assert_eq!(balance_of(&ledger, 0, &b), Ok(0));
}

#[test]
fn only_the_owner_may_destroy() {
    let a = account(1);
    let b = account(2);
    let mut ledger = Assets::new();
    assert_eq!(issue(&mut ledger, &a, b"X", 100), TransactionStatus::Accepted);
    assert_eq!(destroy(&mut ledger, &b, 0), TransactionStatus::NotAssetOwner);
    // metadata and balances are intact
    assert_eq!(balance_of(&ledger, 0, &a), Ok(100));
    match ledger.apply_query(None, &Request::TotalSupply { id: 0 }) {
        Response::TotalSupply { total_issuance } => assert_eq!(total_issuance, 100),
        _ => panic!("supply should still be visible"),
    }
}

#[test]
fn sender_without_a_balance_entry_gets_no_balance() {
    let a = account(1);
    let b = account(2);
    let c = account(3);
    let mut ledger = Assets::new();
    assert_eq!(issue(&mut ledger, &a, b"X", 100), TransactionStatus::Accepted);
    assert_eq!(transfer(&mut ledger, &b, 0, &c, 1), TransactionStatus::NoBalance);
}

#[test]
fn unknown_asset_is_reported() {
    let a = account(1);
    let b = account(2);
    let mut ledger = Assets::new();
    assert_eq!(transfer(&mut ledger, &a, 9, &b, 1), TransactionStatus::AssetIdNotFound);
    assert_eq!(destroy(&mut ledger, &a, 9), TransactionStatus::AssetIdNotFound);
    assert_eq!(balance_of(&ledger, 9, &a), Err(QueryError::AssetIdNotFound));
}

#[test]
fn non_account_origins_are_refused() {
    let mut ledger = Assets::new();
    let status = ledger.apply_command(
        &ctx(1),
        &MessageOrigin::Pallet(b"PhalaMq".to_vec()),
        push(AssetCommand::Issue { symbol: b"X".to_vec(), total: 1 }, 0),
    );
    assert_eq!(status, TransactionStatus::BadOrigin);
}

#[test]
fn glmr_scenario() {
    let a = account(0xaa);
    let b = account(0xbb);
    let mut ledger = Assets::new();

    // Issue GLMR with a supply of 1000; the first asset takes id 0.
    assert_eq!(issue(&mut ledger, &a, b"GLMR", 1000), TransactionStatus::Accepted);
    assert_eq!(ledger.next_id(), 1);
    assert_eq!(balance_of(&ledger, 0, &a), Ok(1000));

    // Transfer 300 to B.
    assert_eq!(transfer(&mut ledger, &a, 0, &b, 300), TransactionStatus::Accepted);
    assert_eq!(balance_of(&ledger, 0, &a), Ok(700));
    assert_eq!(balance_of(&ledger, 0, &b), Ok(300));

    // Nothing is watched by default, so no history was recorded.
    match ledger.apply_query(None, &Request::History { account: a.clone() }) {
        Response::History { history } => assert!(history.is_empty()),
        _ => panic!("history should answer"),
    }

    // B is not the owner and may not destroy the asset.
    assert_eq!(destroy(&mut ledger, &b, 0), TransactionStatus::NotAssetOwner);
    // A is, and after the destroy the asset is gone.
    assert_eq!(destroy(&mut ledger, &a, 0), TransactionStatus::Accepted);
    assert_eq!(balance_of(&ledger, 0, &a), Err(QueryError::AssetIdNotFound));
}

#[test]
fn watched_accounts_accumulate_history() {
    let a = account(0xaa);
    let b = account(0xbb);
    let mut ledger = Assets::with_watchlist(vec![a.clone()]);
    assert_eq!(issue(&mut ledger, &a, b"GLMR", 1000), TransactionStatus::Accepted);
    assert_eq!(transfer(&mut ledger, &a, 0, &b, 300), TransactionStatus::Accepted);
    match ledger.apply_query(None, &Request::History { account: a.clone() }) {
        Response::History { history } => {
            assert_eq!(history.len(), 1);
            assert_eq!(history[0].asset_id, 0);
            assert_eq!(history[0].from, a);
            assert_eq!(history[0].to, b);
            assert_eq!(history[0].amount, 300);
            assert_eq!(history[0].txref.blocknum, 1);
            assert_eq!(history[0].txref.index, 1);
        }
        _ => panic!("history should answer"),
    }
    // B is not watched: no record for it.
    match ledger.apply_query(None, &Request::History { account: b.clone() }) {
        Response::History { history } => assert!(history.is_empty()),
        _ => panic!("history should answer"),
    }
}

#[test]
fn history_survives_destroy() {
    let a = account(0xaa);
    let b = account(0xbb);
    let mut ledger = Assets::with_watchlist(vec![a.clone()]);
    assert_eq!(issue(&mut ledger, &a, b"X", 10), TransactionStatus::Accepted);
    assert_eq!(transfer(&mut ledger, &a, 0, &b, 1), TransactionStatus::Accepted);
    assert_eq!(destroy(&mut ledger, &a, 0), TransactionStatus::Accepted);
    match ledger.apply_query(None, &Request::History { account: a.clone() }) {
        Response::History { history } => assert_eq!(history.len(), 1),
        _ => panic!("history should answer"),
    }
}

#[test]
fn destroyed_ids_are_never_reused() {
    let a = account(1);
    let mut ledger = Assets::new();
    assert_eq!(issue(&mut ledger, &a, b"X", 1), TransactionStatus::Accepted);
    assert_eq!(destroy(&mut ledger, &a, 0), TransactionStatus::Accepted);
    assert_eq!(issue(&mut ledger, &a, b"Y", 1), TransactionStatus::Accepted);
    // the new asset took id 1, never 0 again
    assert_eq!(ledger.next_id(), 2);
    assert_eq!(balance_of(&ledger, 1, &a), Ok(1));
    assert_eq!(balance_of(&ledger, 0, &a), Err(QueryError::AssetIdNotFound));
}

#[test]
fn balance_query_requires_the_account_itself() {
    let a = account(1);
    let b = account(2);
    let mut ledger = Assets::new();
    assert_eq!(issue(&mut ledger, &a, b"X", 5), TransactionStatus::Accepted);
    // no origin
    match ledger.apply_query(None, &Request::Balance { id: 0, account: a.clone() }) {
        Response::Error(QueryError::NotAuthorized) => {}
        _ => panic!("anonymous balance query must be refused"),
    }
    // a different origin
    match ledger.apply_query(Some(&b), &Request::Balance { id: 0, account: a.clone() }) {
        Response::Error(QueryError::NotAuthorized) => {}
        _ => panic!("foreign balance query must be refused"),
    }
}

#[test]
fn metadata_and_listing_queries() {
    let a = account(1);
    let b = account(2);
    let mut ledger = Assets::new();
    assert_eq!(issue(&mut ledger, &a, b"X", 5), TransactionStatus::Accepted);
    assert_eq!(issue(&mut ledger, &b, b"Y", 7), TransactionStatus::Accepted);

    match ledger.apply_query(None, &Request::Metadata) {
        Response::Metadata { metadata } => {
            assert_eq!(metadata.len(), 2);
            assert_eq!(metadata[0].symbol, b"X".to_vec());
            assert_eq!(metadata[0].id, 0);
            assert_eq!(metadata[0].total_supply, 5);
            assert_eq!(metadata[1].symbol, b"Y".to_vec());
            assert_eq!(metadata[1].id, 1);
        }
        _ => panic!("metadata should answer"),
    }

    // listing needs an authenticated caller
    match ledger.apply_query(None, &Request::ListAssets { available_only: false }) {
        Response::Error(QueryError::NotAuthorized) => {}
        _ => panic!("anonymous listing must be refused"),
    }
    // all assets, with A's balance in each
    match ledger.apply_query(Some(&a), &Request::ListAssets { available_only: false }) {
        Response::ListAssets { assets } => {
            assert_eq!(assets.len(), 2);
            assert_eq!(assets[0].metadata.id, 0);
            assert_eq!(assets[0].balance, 5);
            assert_eq!(assets[1].metadata.id, 1);
            assert_eq!(assets[1].balance, 0);
        }
        _ => panic!("listing should answer"),
    }
    // only what A actually holds
    match ledger.apply_query(Some(&a), &Request::ListAssets { available_only: true }) {
        Response::ListAssets { assets } => {
            assert_eq!(assets.len(), 1);
            assert_eq!(assets[0].metadata.id, 0);
            assert_eq!(assets[0].balance, 5);
        }
        _ => panic!("listing should answer"),
    }
}

#[test]
fn self_transfer_changes_nothing() {
    let a = account(1);
    let mut ledger = Assets::new();
    assert_eq!(issue(&mut ledger, &a, b"X", 50), TransactionStatus::Accepted);
    assert_eq!(transfer(&mut ledger, &a, 0, &a, 20), TransactionStatus::Accepted);
    assert_eq!(balance_of(&ledger, 0, &a), Ok(50));
}

#[test]
fn transfer_to_a_new_account_creates_its_entry() {
    let a = account(1);
    let b = account(2);
    let c = account(3);
    let mut ledger = Assets::new();
    assert_eq!(issue(&mut ledger, &a, b"X", 10), TransactionStatus::Accepted);
    assert_eq!(transfer(&mut ledger, &a, 0, &b, 4), TransactionStatus::Accepted);
    assert_eq!(transfer(&mut ledger, &b, 0, &c, 1), TransactionStatus::Accepted);
    assert_eq!(balance_of(&ledger, 0, &a), Ok(6));
    assert_eq!(balance_of(&ledger, 0, &b), Ok(3));
    assert_eq!(balance_of(&ledger, 0, &c), Ok(1));
}

#[test]
fn listing_and_metadata_stay_in_ascending_id_order_after_transfer() {
    let a = account(1);
    let b = account(2);
    let mut ledger = Assets::new();
    assert_eq!(issue(&mut ledger, &a, b"X", 5), TransactionStatus::Accepted);
    assert_eq!(issue(&mut ledger, &a, b"Y", 7), TransactionStatus::Accepted);
    assert_eq!(issue(&mut ledger, &a, b"Z", 9), TransactionStatus::Accepted);
    // touching the first asset must not move it to the end of the tables
    assert_eq!(transfer(&mut ledger, &a, 0, &b, 1), TransactionStatus::Accepted);
    match ledger.apply_query(Some(&a), &Request::ListAssets { available_only: false }) {
        Response::ListAssets { assets } => {
            let ids: Vec<u32> = assets.iter().map(|e| e.metadata.id).collect();
            assert_eq!(ids, vec![0, 1, 2]);
            assert_eq!(assets[0].balance, 4);
        }
        _ => panic!("listing should answer"),
    }
    match ledger.apply_query(None, &Request::Metadata) {
        Response::Metadata { metadata } => {
            let ids: Vec<u32> = metadata.iter().map(|m| m.id).collect();
            assert_eq!(ids, vec![0, 1, 2]);
        }
        _ => panic!("metadata should answer"),
    }
}
