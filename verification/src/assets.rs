//! The ledger contract: the reference instance of the contract execution
//! model.  Its state machine issues, destroys and transfers assets; every
//! command returns a terminal status, every query a response value.
//!
//! The state keeps asset ids distinct and never reuses one: `next_id` is
//! strictly greater than every id present, and only grows.  Every asset
//! present in the balance table has metadata and vice versa, and the
//! balances of each asset always sum to its recorded total supply.

use vstd::prelude::*;

use crate::alist::{contains_key, distinct_keys, lemma_distinct_push, lemma_distinct_remove,
    lemma_distinct_update, lemma_lookup_at, lemma_lookup_is_some,
    lemma_lookup_none, lemma_lookup_push, lemma_lookup_remove, lemma_lookup_update,
    lemma_sum_entry_bound, lemma_sum_nonneg, lemma_sum_push,
    lemma_sum_update, lookup, sum_vals};
use crate::contracts::{NativeContext, NativeContract, PushCommand, TransactionStatus, TxRef,
    ASSETS};
use crate::types::{bytes_eq, copy_bytes, MessageOrigin, OriginView};

verus! {

/// What the ledger records of one asset.
pub struct AssetMetadata {
    /// The account that issued the asset and may destroy it.
    pub owner: Vec<u8>,
    /// The fixed total supply, credited to the owner at issue.
    pub total_supply: u128,
    /// The symbol, unique among live assets.
    pub symbol: Vec<u8>,
    /// The asset's id.
    pub id: u32,
}

/// The mathematical value of an asset's metadata.
pub struct MetadataView {
    pub owner: Seq<u8>,
    pub total_supply: u128,
    pub symbol: Seq<u8>,
    pub id: u32,
}

impl View for AssetMetadata {
    type V = MetadataView;

    open spec fn view(&self) -> MetadataView {
        MetadataView {
            owner: self.owner@,
            total_supply: self.total_supply,
            symbol: self.symbol@,
            id: self.id,
        }
    }
}

impl AssetMetadata {
    /// Deep copy of the metadata.
    pub fn duplicate(&self) -> (r: Self)
        ensures
            r@ == self@,
    {
        AssetMetadata {
            owner: copy_bytes(&self.owner),
            total_supply: self.total_supply,
            symbol: copy_bytes(&self.symbol),
            id: self.id,
        }
    }
}

/// One recorded transfer.
pub struct AssetsTx {
    /// Where the command stood: block number and intra-block index.
    pub txref: TxRef,
    pub asset_id: u32,
    pub from: Vec<u8>,
    pub to: Vec<u8>,
    pub amount: u128,
}

/// The mathematical value of a recorded transfer.
pub struct TxView {
    pub txref: TxRef,
    pub asset_id: u32,
    pub from: Seq<u8>,
    pub to: Seq<u8>,
    pub amount: u128,
}

impl View for AssetsTx {
    type V = TxView;

    open spec fn view(&self) -> TxView {
        TxView {
            txref: self.txref,
            asset_id: self.asset_id,
            from: self.from@,
            to: self.to@,
            amount: self.amount,
        }
    }
}

impl AssetsTx {
    /// Deep copy of the record.
    pub fn duplicate(&self) -> (r: Self)
        ensures
            r@ == self@,
    {
        AssetsTx {
            txref: self.txref,
            asset_id: self.asset_id,
            from: copy_bytes(&self.from),
            to: copy_bytes(&self.to),
            amount: self.amount,
        }
    }
}

/// An asset's metadata together with one account's balance in it.
pub struct AssetMetadataBalance {
    pub metadata: AssetMetadata,
    pub balance: u128,
}

/// The commands of the ledger contract.
pub enum AssetCommand {
    /// Create a new asset with a fresh id, crediting `total` to the issuer.
    Issue { symbol: Vec<u8>, total: u128 },
    /// Remove an asset's metadata and balances; only its owner may.
    Destroy { id: u32 },
    /// Move `value` from the caller to `dest` within asset `id`.
    Transfer { id: u32, dest: Vec<u8>, value: u128 },
}

/// The mathematical value of a command.
pub enum CommandView {
    Issue { symbol: Seq<u8>, total: u128 },
    Destroy { id: u32 },
    Transfer { id: u32, dest: Seq<u8>, value: u128 },
}

impl View for AssetCommand {
    type V = CommandView;

    open spec fn view(&self) -> CommandView {
        match self {
            AssetCommand::Issue { symbol, total } => CommandView::Issue {
                symbol: symbol@,
                total: *total,
            },
            AssetCommand::Destroy { id } => CommandView::Destroy { id: *id },
            AssetCommand::Transfer { id, dest, value } => CommandView::Transfer {
                id: *id,
                dest: dest@,
                value: *value,
            },
        }
    }
}

/// The view of a balance list: account bytes and amounts.
pub open spec fn bal_view(v: Seq<(Vec<u8>, u128)>) -> Seq<(Seq<u8>, u128)> {
    Seq::new(v.len(), |i: int| (v[i].0@, v[i].1))
}

/// The view of the balance table: asset id to balance list.
pub open spec fn assets_view_of(v: Seq<(u32, Vec<(Vec<u8>, u128)>)>) -> Seq<
    (u32, Seq<(Seq<u8>, u128)>),
> {
    Seq::new(v.len(), |i: int| (v[i].0, bal_view(v[i].1@)))
}

/// The view of the metadata table.
pub open spec fn md_view_of(v: Seq<(u32, AssetMetadata)>) -> Seq<(u32, MetadataView)> {
    Seq::new(v.len(), |i: int| (v[i].0, v[i].1@))
}

/// The view of a list of transfer records.
pub open spec fn txs_view(v: Seq<AssetsTx>) -> Seq<TxView> {
    Seq::new(v.len(), |i: int| v[i]@)
}

/// The view of the history table: account to its records, in order.
pub open spec fn hist_view_of(v: Seq<(Vec<u8>, Vec<AssetsTx>)>) -> Seq<(Seq<u8>, Seq<TxView>)> {
    Seq::new(v.len(), |i: int| (v[i].0@, txs_view(v[i].1@)))
}

/// The view of the history allow-list.
pub open spec fn watchlist_view(v: Seq<Vec<u8>>) -> Seq<Seq<u8>> {
    Seq::new(v.len(), |i: int| v[i]@)
}

/// The mathematical value of the whole ledger state.
pub struct AssetsView {
    pub next_id: u32,
    pub assets: Seq<(u32, Seq<(Seq<u8>, u128)>)>,
    pub metadata: Seq<(u32, MetadataView)>,
    pub history: Seq<(Seq<u8>, Seq<TxView>)>,
    pub watchlist: Seq<Seq<u8>>,
}

/// Whether a table keyed by asset id lists its entries in strictly
/// ascending id order.
pub open spec fn ascending_ids<V>(s: Seq<(u32, V)>) -> bool {
    forall|i: int, j: int| 0 <= i < j < s.len() ==> s[i].0 < s[j].0
}

impl AssetsView {
    /// The ledger's invariant: distinct keys throughout, and the metadata
    /// and balance tables in strictly ascending id order; every id present
    /// is smaller than `next_id` and carries its own id in its metadata;
    /// the balance table and the metadata table hold exactly the same
    /// ids; each asset's balance list has distinct accounts and sums to
    /// the asset's recorded total supply.
    pub open spec fn wf(self) -> bool {
        &&& distinct_keys(self.metadata)
        &&& distinct_keys(self.assets)
        &&& distinct_keys(self.history)
        &&& ascending_ids(self.metadata)
        &&& ascending_ids(self.assets)
        &&& (forall|i: int|
            0 <= i < self.metadata.len() ==> ((#[trigger] self.metadata[i]).1.id
                == self.metadata[i].0 && self.metadata[i].0 < self.next_id))
        &&& (forall|i: int|
            0 <= i < self.assets.len() ==> contains_key(
                self.metadata,
                (#[trigger] self.assets[i]).0,
            ))
        &&& (forall|i: int|
            0 <= i < self.metadata.len() ==> contains_key(
                self.assets,
                (#[trigger] self.metadata[i]).0,
            ))
        &&& (forall|i: int|
            0 <= i < self.assets.len() ==> distinct_keys((#[trigger] self.assets[i]).1))
        &&& (forall|i: int|
            0 <= i < self.assets.len() ==> sum_vals((#[trigger] self.assets[i]).1) == lookup(
                self.metadata,
                self.assets[i].0,
            )->Some_0.total_supply)
    }
}

/// Whether some live asset already carries this symbol.
pub open spec fn spec_symbol_taken(md: Seq<(u32, MetadataView)>, sym: Seq<u8>) -> bool {
    exists|i: int| 0 <= i < md.len() && (#[trigger] md[i]).1.symbol == sym
}

/// Whether the allow-list holds this account's history.
pub open spec fn spec_watched(t: Seq<Seq<u8>>, acc: Seq<u8>) -> bool {
    exists|i: int| 0 <= i < t.len() && t[i] == acc
}

/// The account an origin stands for: only user accounts may command the
/// ledger.
pub open spec fn spec_origin_account(o: OriginView) -> Option<Seq<u8>> {
    match o {
        OriginView::AccountId(a) => Some(a),
        _ => None,
    }
}

/// The balance bound to `k`, or 0 when no entry exists.
pub open spec fn entry_or_zero(b: Seq<(Seq<u8>, u128)>, k: Seq<u8>) -> u128 {
    match lookup(b, k) {
        Some(x) => x,
        None => 0u128,
    }
}

/// The history bound to `acc`, or the empty sequence.
pub open spec fn entry_or_empty(h: Seq<(Seq<u8>, Seq<TxView>)>, acc: Seq<u8>) -> Seq<TxView> {
    match lookup(h, acc) {
        Some(l) => l,
        None => Seq::empty(),
    }
}

/// How a transfer record lands in the history: each watched end of the
/// transfer has the record appended to its history (twice for a watchlist
/// self-transfer); every other account's history is untouched.
pub open spec fn spec_hist_updated(
    h0: Seq<(Seq<u8>, Seq<TxView>)>,
    h1: Seq<(Seq<u8>, Seq<TxView>)>,
    watchlist: Seq<Seq<u8>>,
    from: Seq<u8>,
    to: Seq<u8>,
    tx: TxView,
) -> bool {
    &&& (!spec_watched(watchlist, from) && !spec_watched(watchlist, to) ==> h1 == h0)
    &&& (from == to && spec_watched(watchlist, from) ==> lookup(h1, from) == Some(
        entry_or_empty(h0, from).push(tx).push(tx),
    ))
    &&& (from != to && spec_watched(watchlist, from) ==> lookup(h1, from) == Some(
        entry_or_empty(h0, from).push(tx),
    ))
    &&& (from != to && spec_watched(watchlist, to) ==> lookup(h1, to) == Some(
        entry_or_empty(h0, to).push(tx),
    ))
    &&& (forall|a: Seq<u8>|
        a != from && a != to ==> #[trigger] lookup(h1, a) == lookup(h0, a))
    &&& distinct_keys(h1)
}

/// The outcome of `Issue` for account `acc`: `SymbolExist` and no change
/// when the symbol is taken; otherwise the fresh id `v.next_id` is bound
/// to new metadata and a single balance crediting the whole supply to
/// `acc`, every other asset is untouched, and `next_id` advances.
pub open spec fn spec_issue_post(
    v: AssetsView,
    w: AssetsView,
    acc: Seq<u8>,
    symbol: Seq<u8>,
    total: u128,
    r: TransactionStatus,
) -> bool {
    if spec_symbol_taken(v.metadata, symbol) {
        r == TransactionStatus::SymbolExist && w == v
    } else {
        &&& r == TransactionStatus::Accepted
        &&& w.next_id == v.next_id + 1
        &&& lookup(w.metadata, v.next_id) == Some(
            MetadataView { owner: acc, total_supply: total, symbol, id: v.next_id },
        )
        &&& (forall|k: u32|
            k != v.next_id ==> #[trigger] lookup(w.metadata, k) == lookup(v.metadata, k))
        &&& lookup(w.assets, v.next_id) == Some(seq![(acc, total)])
        &&& (forall|k: u32|
            k != v.next_id ==> #[trigger] lookup(w.assets, k) == lookup(v.assets, k))
        &&& w.history == v.history
    }
}

/// The outcome of `Destroy` of asset `id` for account `acc`: an unknown
/// id or a caller other than the owner changes nothing; otherwise both
/// the metadata and the balances of the asset are unbound, everything
/// else, the history and `next_id` included, stays.
pub open spec fn spec_destroy_post(
    v: AssetsView,
    w: AssetsView,
    acc: Seq<u8>,
    id: u32,
    r: TransactionStatus,
) -> bool {
    match lookup(v.metadata, id) {
        Option::None => r == TransactionStatus::AssetIdNotFound && w == v,
        Option::Some(md) => if md.owner != acc {
            r == TransactionStatus::NotAssetOwner && w == v
        } else {
            &&& r == TransactionStatus::Accepted
            &&& w.next_id == v.next_id
            &&& lookup(w.metadata, id) is None
            &&& (forall|k: u32|
                k != id ==> #[trigger] lookup(w.metadata, k) == lookup(v.metadata, k))
            &&& lookup(w.assets, id) is None
            &&& (forall|k: u32| k != id ==> #[trigger] lookup(w.assets, k) == lookup(v.assets, k))
            &&& w.history == v.history
        },
    }
}

/// The outcome of `Transfer` of `value` in asset `id` from `acc` to
/// `dest`: each refusal changes nothing; on success the source is
/// debited, the destination credited (created at zero if absent, and a
/// self-transfer nets to no change), every other balance and asset is
/// untouched, and the record `tx` lands in the history of each watched
/// end.
pub open spec fn spec_transfer_post(
    v: AssetsView,
    w: AssetsView,
    acc: Seq<u8>,
    id: u32,
    dest: Seq<u8>,
    value: u128,
    tx: TxView,
    r: TransactionStatus,
) -> bool {
    match lookup(v.metadata, id) {
        Option::None => r == TransactionStatus::AssetIdNotFound && w == v,
        Option::Some(_) => {
            let b = lookup(v.assets, id)->Some_0;
            match lookup(b, acc) {
                Option::None => r == TransactionStatus::NoBalance && w == v,
                Option::Some(sb) => if sb < value {
                    r == TransactionStatus::InsufficientBalance && w == v
                } else {
                    &&& r == TransactionStatus::Accepted
                    &&& w.next_id == v.next_id
                    &&& w.metadata == v.metadata
                    &&& lookup(w.assets, id) is Some
                    &&& ({
                        let nb = lookup(w.assets, id)->Some_0;
                        &&& (dest == acc ==> lookup(nb, acc) == Some(sb))
                        &&& (dest != acc ==> lookup(nb, acc) == Some((sb - value) as u128) && lookup(
                            nb,
                            dest,
                        ) == Some((entry_or_zero(b, dest) + value) as u128))
                        &&& (forall|a: Seq<u8>|
                            a != acc && a != dest ==> #[trigger] lookup(nb, a) == lookup(b, a))
                    })
                    &&& (forall|k: u32|
                        k != id ==> #[trigger] lookup(w.assets, k) == lookup(v.assets, k))
                    &&& spec_hist_updated(v.history, w.history, v.watchlist, acc, dest, tx)
                },
            }
        },
    }
}

/// The default history policy: no account's history is recorded.  A
/// ledger built by `Assets::new` follows it; `Assets::with_watchlist`
/// installs an explicit allow-list instead.
pub fn is_watched(account: &Vec<u8>) -> (r: bool)
    ensures
        r == false,
{
    false
}

/// The ledger contract's state.
pub struct Assets {
    next_id: u32,
    assets: Vec<(u32, Vec<(Vec<u8>, u128)>)>,
    metadata: Vec<(u32, AssetMetadata)>,
    history: Vec<(Vec<u8>, Vec<AssetsTx>)>,
    watchlist: Vec<Vec<u8>>,
}

impl View for Assets {
    type V = AssetsView;

    closed spec fn view(&self) -> AssetsView {
        AssetsView {
            next_id: self.next_id,
            assets: assets_view_of(self.assets@),
            metadata: md_view_of(self.metadata@),
            history: hist_view_of(self.history@),
            watchlist: watchlist_view(self.watchlist@),
        }
    }
}

impl Assets {
    /// A fresh ledger: no assets, no history, nothing watchlist, ids
    /// starting at 0.
    pub fn new() -> (r: Self)
        ensures
            r@.wf(),
            r@.next_id == 0,
            r@.assets == Seq::<(u32, Seq<(Seq<u8>, u128)>)>::empty(),
            r@.metadata == Seq::<(u32, MetadataView)>::empty(),
            r@.history == Seq::<(Seq<u8>, Seq<TxView>)>::empty(),
            r@.watchlist == Seq::<Seq<u8>>::empty(),
    {
        let r = Assets {
            next_id: 0,
            assets: Vec::new(),
            metadata: Vec::new(),
            history: Vec::new(),
            watchlist: Vec::new(),
        };
        proof {
            assert(r@.assets =~= Seq::<(u32, Seq<(Seq<u8>, u128)>)>::empty());
            assert(r@.metadata =~= Seq::<(u32, MetadataView)>::empty());
            assert(r@.history =~= Seq::<(Seq<u8>, Seq<TxView>)>::empty());
            assert(r@.watchlist =~= Seq::<Seq<u8>>::empty());
        }
        r
    }

    /// A fresh ledger that records history for the given accounts.
    pub fn with_watchlist(watchlist: Vec<Vec<u8>>) -> (r: Self)
        ensures
            r@.wf(),
            r@.next_id == 0,
            r@.assets == Seq::<(u32, Seq<(Seq<u8>, u128)>)>::empty(),
            r@.metadata == Seq::<(u32, MetadataView)>::empty(),
            r@.history == Seq::<(Seq<u8>, Seq<TxView>)>::empty(),
            r@.watchlist == watchlist_view(watchlist@),
    {
        let r = Assets {
            next_id: 0,
            assets: Vec::new(),
            metadata: Vec::new(),
            history: Vec::new(),
            watchlist,
        };
        proof {
            assert(r@.assets =~= Seq::<(u32, Seq<(Seq<u8>, u128)>)>::empty());
            assert(r@.metadata =~= Seq::<(u32, MetadataView)>::empty());
            assert(r@.history =~= Seq::<(Seq<u8>, Seq<TxView>)>::empty());
        }
        r
    }

    /// The id the next issued asset will take.
    pub fn next_id(&self) -> (r: u32)
        ensures
            r == self@.next_id,
    {
        self.next_id
    }
}

/// The index of the first metadata entry of `id`, if any.
fn find_meta(v: &Vec<(u32, AssetMetadata)>, id: u32) -> (r: Option<usize>)
    ensures
        ({
            let s = md_view_of(v@);
            match r {
                Some(i) => i < s.len() && s[i as int].0 == id && (forall|j: int|
                    0 <= j < i ==> s[j].0 != id),
                None => forall|j: int| 0 <= j < s.len() ==> s[j].0 != id,
            }
        }),
{
    let n: usize = v.len();
    let mut i: usize = 0;
    while i < n
        invariant
            n == v@.len(),
            0 <= i <= n,
            forall|j: int| 0 <= j < i ==> md_view_of(v@)[j].0 != id,
        decreases n - i,
    {
        if v[i].0 == id {
            assert(md_view_of(v@)[i as int].0 == id);
            return Some(i);
        }
        assert(md_view_of(v@)[i as int].0 != id);
        i += 1;
    }
    None
}

/// The index of the first balance-table entry of `id`, if any.
fn find_asset(v: &Vec<(u32, Vec<(Vec<u8>, u128)>)>, id: u32) -> (r: Option<usize>)
    ensures
        ({
            let s = assets_view_of(v@);
            match r {
                Some(i) => i < s.len() && s[i as int].0 == id && (forall|j: int|
                    0 <= j < i ==> s[j].0 != id),
                None => forall|j: int| 0 <= j < s.len() ==> s[j].0 != id,
            }
        }),
{
    let n: usize = v.len();
    let mut i: usize = 0;
    while i < n
        invariant
            n == v@.len(),
            0 <= i <= n,
            forall|j: int| 0 <= j < i ==> assets_view_of(v@)[j].0 != id,
        decreases n - i,
    {
        if v[i].0 == id {
            assert(assets_view_of(v@)[i as int].0 == id);
            return Some(i);
        }
        assert(assets_view_of(v@)[i as int].0 != id);
        i += 1;
    }
    None
}

/// The index of the first balance entry of `acc`, if any.
fn find_acct(v: &Vec<(Vec<u8>, u128)>, acc: &Vec<u8>) -> (r: Option<usize>)
    ensures
        ({
            let s = bal_view(v@);
            match r {
                Some(i) => i < s.len() && s[i as int].0 == acc@ && (forall|j: int|
                    0 <= j < i ==> s[j].0 != acc@),
                None => forall|j: int| 0 <= j < s.len() ==> s[j].0 != acc@,
            }
        }),
{
    let n: usize = v.len();
    let mut i: usize = 0;
    while i < n
        invariant
            n == v@.len(),
            0 <= i <= n,
            forall|j: int| 0 <= j < i ==> bal_view(v@)[j].0 != acc@,
        decreases n - i,
    {
        if bytes_eq(&v[i].0, acc) {
            assert(bal_view(v@)[i as int].0 == acc@);
            return Some(i);
        }
        assert(bal_view(v@)[i as int].0 != acc@);
        i += 1;
    }
    None
}

/// The index of the first history entry of `acc`, if any.
fn find_hist(v: &Vec<(Vec<u8>, Vec<AssetsTx>)>, acc: &Vec<u8>) -> (r: Option<usize>)
    ensures
        ({
            let s = hist_view_of(v@);
            match r {
                Some(i) => i < s.len() && s[i as int].0 == acc@ && (forall|j: int|
                    0 <= j < i ==> s[j].0 != acc@),
                None => forall|j: int| 0 <= j < s.len() ==> s[j].0 != acc@,
            }
        }),
{
    let n: usize = v.len();
    let mut i: usize = 0;
    while i < n
        invariant
            n == v@.len(),
            0 <= i <= n,
            forall|j: int| 0 <= j < i ==> hist_view_of(v@)[j].0 != acc@,
        decreases n - i,
    {
        if bytes_eq(&v[i].0, acc) {
            assert(hist_view_of(v@)[i as int].0 == acc@);
            return Some(i);
        }
        assert(hist_view_of(v@)[i as int].0 != acc@);
        i += 1;
    }
    None
}

/// Whether some live asset already carries this symbol.
fn symbol_taken(v: &Vec<(u32, AssetMetadata)>, sym: &Vec<u8>) -> (r: bool)
    ensures
        r == spec_symbol_taken(md_view_of(v@), sym@),
{
    let n: usize = v.len();
    let mut i: usize = 0;
    while i < n
        invariant
            n == v@.len(),
            0 <= i <= n,
            forall|j: int| 0 <= j < i ==> (#[trigger] md_view_of(v@)[j]).1.symbol != sym@,
        decreases n - i,
    {
        if bytes_eq(&v[i].1.symbol, sym) {
            assert((md_view_of(v@)[i as int]).1.symbol == sym@);
            return true;
        }
        assert((md_view_of(v@)[i as int]).1.symbol != sym@);
        i += 1;
    }
    assert(!spec_symbol_taken(md_view_of(v@), sym@));
    false
}

/// Whether the allow-list holds this account.
fn watchlist_contains(t: &Vec<Vec<u8>>, acc: &Vec<u8>) -> (r: bool)
    ensures
        r == spec_watched(watchlist_view(t@), acc@),
{
    let n: usize = t.len();
    let mut i: usize = 0;
    while i < n
        invariant
            n == t@.len(),
            0 <= i <= n,
            forall|j: int| 0 <= j < i ==> watchlist_view(t@)[j] != acc@,
        decreases n - i,
    {
        if bytes_eq(&t[i], acc) {
            assert(watchlist_view(t@)[i as int] == acc@);
            return true;
        }
        assert(watchlist_view(t@)[i as int] != acc@);
        i += 1;
    }
    assert(!spec_watched(watchlist_view(t@), acc@));
    false
}


/// Appends a record to an account's history, creating the entry if
/// absent; every other account's history is untouched.
fn hist_append(h: &mut Vec<(Vec<u8>, Vec<AssetsTx>)>, acc: &Vec<u8>, tx: &AssetsTx)
    requires
        distinct_keys(hist_view_of(old(h)@)),
    ensures
        distinct_keys(hist_view_of(final(h)@)),
        lookup(hist_view_of(final(h)@), acc@) == Some(
            entry_or_empty(hist_view_of(old(h)@), acc@).push(tx@),
        ),
        forall|a: Seq<u8>|
            a != acc@ ==> #[trigger] lookup(hist_view_of(final(h)@), a) == lookup(
                hist_view_of(old(h)@),
                a,
            ),
{
    let ghost h0 = hist_view_of(h@);
    match find_hist(h, acc) {
        Some(i) => {
            proof {
                lemma_lookup_at(h0, acc@, i as int);
            }
            let (key, mut list) = h.remove(i);
            let ghost l0 = txs_view(list@);
            proof {
                assert(hist_view_of(h@) =~= h0.remove(i as int));
                assert(l0 == h0[i as int].1);
            }
            list.push(tx.duplicate());
            proof {
                assert(txs_view(list@) =~= l0.push(tx@));
            }
            h.push((key, list));
            proof {
                assert(hist_view_of(h@) =~= h0.remove(i as int).push((acc@, l0.push(tx@))));
                lemma_lookup_remove(h0, i as int, acc@);
                lemma_distinct_remove(h0, i as int);
                lemma_lookup_push(h0.remove(i as int), (acc@, l0.push(tx@)), acc@);
                assert(lookup(hist_view_of(h@), acc@) == Some(l0.push(tx@)));
                assert(entry_or_empty(h0, acc@) == l0);
                assert forall|a: Seq<u8>| a != acc@ implies #[trigger] lookup(
                    hist_view_of(h@),
                    a,
                ) == lookup(h0, a) by {
                    lemma_lookup_remove(h0, i as int, a);
                    lemma_lookup_push(h0.remove(i as int), (acc@, l0.push(tx@)), a);
                }
                lemma_distinct_push(h0.remove(i as int), (acc@, l0.push(tx@)));
            }
        },
        None => {
            proof {
                lemma_lookup_none(h0, acc@);
            }
            let mut list: Vec<AssetsTx> = Vec::new();
            list.push(tx.duplicate());
            h.push((copy_bytes(acc), list));
            proof {
                assert(txs_view(list@) =~= seq![tx@]);
                assert(hist_view_of(h@) =~= h0.push((acc@, seq![tx@])));
                assert(entry_or_empty(h0, acc@) == Seq::<TxView>::empty());
                assert(Seq::<TxView>::empty().push(tx@) =~= seq![tx@]);
                lemma_lookup_push(h0, (acc@, seq![tx@]), acc@);
                assert forall|a: Seq<u8>| a != acc@ implies #[trigger] lookup(
                    hist_view_of(h@),
                    a,
                ) == lookup(h0, a) by {
                    lemma_lookup_push(h0, (acc@, seq![tx@]), a);
                }
                lemma_distinct_push(h0, (acc@, seq![tx@]));
            }
        },
    }
}

impl Assets {
    /// Issues a new asset for `acc`: refused with `SymbolExist` when a
    /// live asset already carries the symbol; otherwise the fresh id
    /// `next_id` is allocated, the whole supply is credited to `acc`, and
    /// `next_id` advances, so the id can never be handed out again.
    fn issue(&mut self, acc: Vec<u8>, symbol: Vec<u8>, total: u128) -> (r: TransactionStatus)
        requires
            old(self)@.wf(),
            old(self)@.next_id < u32::MAX,
        ensures
            final(self)@.wf(),
            final(self)@.watchlist == old(self)@.watchlist,
            spec_issue_post(old(self)@, final(self)@, acc@, symbol@, total, r),
    {
        let ghost v = self@;
        if symbol_taken(&self.metadata, &symbol) {
            return TransactionStatus::SymbolExist;
        }
        let id = self.next_id;
        let mut accounts: Vec<(Vec<u8>, u128)> = Vec::new();
        accounts.push((copy_bytes(&acc), total));
        proof {
            assert(bal_view(accounts@) =~= seq![(acc@, total)]);
        }
        let metadatum = AssetMetadata { owner: acc, total_supply: total, symbol, id };
        self.metadata.push((id, metadatum));
        self.assets.push((id, accounts));
        self.next_id = id + 1;
        proof {
            let w = self@;
            assert(w.metadata =~= v.metadata.push(
                (id, MetadataView { owner: acc@, total_supply: total, symbol: symbol@, id }),
            ));
            assert(w.assets =~= v.assets.push((id, seq![(acc@, total)])));
            assert(w.history =~= v.history);
            assert(w.watchlist =~= v.watchlist);
            assert forall|j: int| 0 <= j < v.metadata.len() implies v.metadata[j].0 != id by {}
            lemma_lookup_none(v.metadata, id);
            assert forall|j: int| 0 <= j < v.assets.len() implies v.assets[j].0 < id by {
                lemma_lookup_is_some(v.metadata, v.assets[j].0);
                let m = choose|m: int|
                    0 <= m < v.metadata.len() && v.metadata[m].0 == v.assets[j].0;
                assert(v.metadata[m].0 < v.next_id);
            }
            lemma_lookup_none(v.assets, id);
            lemma_lookup_push(
                v.metadata,
                (id, MetadataView { owner: acc@, total_supply: total, symbol: symbol@, id }),
                id,
            );
            lemma_lookup_push(v.assets, (id, seq![(acc@, total)]), id);
            assert forall|k: u32| k != id implies #[trigger] lookup(w.metadata, k) == lookup(
                v.metadata,
                k,
            ) by {
                lemma_lookup_push(
                    v.metadata,
                    (id, MetadataView { owner: acc@, total_supply: total, symbol: symbol@, id }),
                    k,
                );
            }
            assert forall|k: u32| k != id implies #[trigger] lookup(w.assets, k) == lookup(
                v.assets,
                k,
            ) by {
                lemma_lookup_push(v.assets, (id, seq![(acc@, total)]), k);
            }
            lemma_distinct_push(
                v.metadata,
                (id, MetadataView { owner: acc@, total_supply: total, symbol: symbol@, id }),
            );
            lemma_distinct_push(v.assets, (id, seq![(acc@, total)]));
            // well-formedness of the new state
            assert(seq![(acc@, total)].skip(1) =~= Seq::<(Seq<u8>, u128)>::empty());
            assert(sum_vals(Seq::<(Seq<u8>, u128)>::empty()) == 0);
            assert(seq![(acc@, total)][0] == (acc@, total));
            assert(sum_vals(seq![(acc@, total)]) == total);
            assert forall|i: int| 0 <= i < w.metadata.len() implies ((#[trigger] w.metadata[i]).1.id
                == w.metadata[i].0 && w.metadata[i].0 < w.next_id) by {
                if i < v.metadata.len() {
                    assert(w.metadata[i] == v.metadata[i]);
                }
            }
            assert forall|i: int| 0 <= i < w.assets.len() implies contains_key(
                w.metadata,
                (#[trigger] w.assets[i]).0,
            ) by {
                if i < v.assets.len() {
                    assert(w.assets[i] == v.assets[i]);
                    assert(contains_key(v.metadata, v.assets[i].0));
                    assert(v.assets[i].0 != id);
                } else {
                    assert(w.assets[i].0 == id);
                }
            }
            assert forall|i: int| 0 <= i < w.metadata.len() implies contains_key(
                w.assets,
                (#[trigger] w.metadata[i]).0,
            ) by {
                if i < v.metadata.len() {
                    assert(w.metadata[i] == v.metadata[i]);
                    assert(contains_key(v.assets, v.metadata[i].0));
                    assert(v.metadata[i].0 != id);
                } else {
                    assert(w.metadata[i].0 == id);
                }
            }
            assert forall|i: int| 0 <= i < w.assets.len() implies distinct_keys(
                (#[trigger] w.assets[i]).1,
            ) by {
                if i < v.assets.len() {
                    assert(w.assets[i] == v.assets[i]);
                } else {
                    assert(w.assets[i].1 =~= seq![(acc@, total)]);
                    assert(distinct_keys(seq![(acc@, total)]));
                }
            }
            assert forall|i: int| 0 <= i < w.assets.len() implies sum_vals(
                (#[trigger] w.assets[i]).1,
            ) == lookup(w.metadata, w.assets[i].0)->Some_0.total_supply by {
                if i < v.assets.len() {
                    assert(w.assets[i] == v.assets[i]);
                    assert(v.assets[i].0 != id);
                    assert(lookup(w.metadata, v.assets[i].0) == lookup(v.metadata, v.assets[i].0));
                } else {
                    assert(w.assets[i].0 == id);
                }
            }
            assert forall|a: int, b: int| 0 <= a < b < w.metadata.len() implies w.metadata[a].0
                < w.metadata[b].0 by {
                assert(w.metadata[a] == v.metadata[a]);
                if b < v.metadata.len() {
                    assert(w.metadata[b] == v.metadata[b]);
                } else {
                    assert(w.metadata[b].0 == id);
                    assert(v.metadata[a].0 < v.next_id);
                }
            }
            assert forall|a: int, b: int| 0 <= a < b < w.assets.len() implies w.assets[a].0
                < w.assets[b].0 by {
                assert(w.assets[a] == v.assets[a]);
                if b < v.assets.len() {
                    assert(w.assets[b] == v.assets[b]);
                } else {
                    assert(w.assets[b].0 == id);
                }
            }
        }
        TransactionStatus::Accepted
    }
}


impl Assets {
    /// Destroys an asset: refused with `AssetIdNotFound` when no such
    /// asset exists, and with `NotAssetOwner` when the caller is not its
    /// recorded owner; otherwise metadata and balances are removed
    /// entirely.  History is retained, and `next_id` does not move, so
    /// the destroyed id is never handed out again.
    fn destroy(&mut self, acc: Vec<u8>, id: u32) -> (r: TransactionStatus)
        requires
            old(self)@.wf(),
        ensures
            final(self)@.wf(),
            final(self)@.watchlist == old(self)@.watchlist,
            spec_destroy_post(old(self)@, final(self)@, acc@, id, r),
    {
        let ghost v = self@;
        let im = match find_meta(&self.metadata, id) {
            Some(x) => x,
            None => {
                proof {
                    lemma_lookup_none(v.metadata, id);
                }
                return TransactionStatus::AssetIdNotFound;
            },
        };
        proof {
            lemma_lookup_at(v.metadata, id, im as int);
        }
        if !bytes_eq(&self.metadata[im].1.owner, &acc) {
            return TransactionStatus::NotAssetOwner;
        }
        let ia = match find_asset(&self.assets, id) {
            Some(x) => x,
            None => {
                proof {
                    assert(contains_key(v.assets, v.metadata[im as int].0));
                    lemma_lookup_is_some(v.assets, id);
                    assert(false);
                }
                return TransactionStatus::AssetIdNotFound;
            },
        };
        let _removed_md = self.metadata.remove(im);
        let _removed_as = self.assets.remove(ia);
        proof {
            let w = self@;
            assert(w.metadata =~= v.metadata.remove(im as int));
            assert(w.assets =~= v.assets.remove(ia as int));
            assert(w.history =~= v.history);
            assert(w.watchlist =~= v.watchlist);
            lemma_distinct_remove(v.metadata, im as int);
            lemma_distinct_remove(v.assets, ia as int);
            lemma_lookup_remove(v.metadata, im as int, id);
            lemma_lookup_remove(v.assets, ia as int, id);
            assert forall|k: u32| k != id implies #[trigger] lookup(w.metadata, k) == lookup(
                v.metadata,
                k,
            ) by {
                lemma_lookup_remove(v.metadata, im as int, k);
            }
            assert forall|k: u32| k != id implies #[trigger] lookup(w.assets, k) == lookup(
                v.assets,
                k,
            ) by {
                lemma_lookup_remove(v.assets, ia as int, k);
            }
            assert forall|i: int| 0 <= i < w.metadata.len() implies ((#[trigger] w.metadata[i]).1.id
                == w.metadata[i].0 && w.metadata[i].0 < w.next_id) by {
                let i0: int = if i < im as int {
                    i
                } else {
                    i + 1
                };
                assert(w.metadata[i] == v.metadata[i0]);
            }
            assert forall|i: int| 0 <= i < w.assets.len() implies contains_key(
                w.metadata,
                (#[trigger] w.assets[i]).0,
            ) by {
                let i0: int = if i < ia as int {
                    i
                } else {
                    i + 1
                };
                assert(w.assets[i] == v.assets[i0]);
                assert(v.assets[ia as int].0 == id);
                assert(v.assets[i0].0 != id);
                assert(contains_key(v.metadata, v.assets[i0].0));
            }
            assert forall|i: int| 0 <= i < w.metadata.len() implies contains_key(
                w.assets,
                (#[trigger] w.metadata[i]).0,
            ) by {
                let i0: int = if i < im as int {
                    i
                } else {
                    i + 1
                };
                assert(w.metadata[i] == v.metadata[i0]);
                assert(v.metadata[im as int].0 == id);
                assert(v.metadata[i0].0 != id);
                assert(contains_key(v.assets, v.metadata[i0].0));
            }
            assert forall|i: int| 0 <= i < w.assets.len() implies distinct_keys(
                (#[trigger] w.assets[i]).1,
            ) by {
                let i0: int = if i < ia as int {
                    i
                } else {
                    i + 1
                };
                assert(w.assets[i] == v.assets[i0]);
            }
            assert forall|i: int| 0 <= i < w.assets.len() implies sum_vals(
                (#[trigger] w.assets[i]).1,
            ) == lookup(w.metadata, w.assets[i].0)->Some_0.total_supply by {
                let i0: int = if i < ia as int {
                    i
                } else {
                    i + 1
                };
                assert(w.assets[i] == v.assets[i0]);
                assert(v.assets[ia as int].0 == id);
                assert(v.assets[i0].0 != id);
                assert(lookup(w.metadata, v.assets[i0].0) == lookup(v.metadata, v.assets[i0].0));
            }
        }
        TransactionStatus::Accepted
    }
}


impl Assets {
    /// Transfers `value` of asset `id` from `acc` to `dest`: refused with
    /// `AssetIdNotFound` when no such asset exists, `NoBalance` when the
    /// source holds no entry, and `InsufficientBalance` when the entry is
    /// smaller than `value` — each refusal leaving the state untouched.
    /// Otherwise the source is debited and the destination credited (a
    /// missing destination entry is created; a self-transfer changes
    /// nothing), every other balance is untouched, and a record lands in
    /// the history of each watched end of the transfer.
    #[verifier::rlimit(60)]
    fn transfer(
        &mut self,
        context: &NativeContext,
        number: u64,
        acc: Vec<u8>,
        id: u32,
        dest: Vec<u8>,
        value: u128,
    ) -> (r: TransactionStatus)
        requires
            old(self)@.wf(),
        ensures
            final(self)@.wf(),
            final(self)@.watchlist == old(self)@.watchlist,
            spec_transfer_post(
                old(self)@,
                final(self)@,
                acc@,
                id,
                dest@,
                value,
                TxView {
                    txref: TxRef { blocknum: context.block_number, index: number },
                    asset_id: id,
                    from: acc@,
                    to: dest@,
                    amount: value,
                },
                r,
            ),
    {
        let ghost v = self@;
        let im = match find_meta(&self.metadata, id) {
            Some(x) => x,
            None => {
                proof {
                    lemma_lookup_none(v.metadata, id);
                }
                return TransactionStatus::AssetIdNotFound;
            },
        };
        proof {
            lemma_lookup_at(v.metadata, id, im as int);
        }
        let ia = match find_asset(&self.assets, id) {
            Some(x) => x,
            None => {
                proof {
                    assert(contains_key(v.assets, v.metadata[im as int].0));
                    lemma_lookup_is_some(v.assets, id);
                    assert(false);
                }
                return TransactionStatus::AssetIdNotFound;
            },
        };
        proof {
            lemma_lookup_at(v.assets, id, ia as int);
        }
        let ghost b0 = v.assets[ia as int].1;
        let isrc = match find_acct(&self.assets[ia].1, &acc) {
            Some(x) => x,
            None => {
                proof {
                    lemma_lookup_none(b0, acc@);
                }
                return TransactionStatus::NoBalance;
            },
        };
        proof {
            lemma_lookup_at(b0, acc@, isrc as int);
        }
        let sb = self.assets[ia].1[isrc].1;
        assert(sb == lookup(b0, acc@)->Some_0);
        if sb < value {
            return TransactionStatus::InsufficientBalance;
        }
        proof {
            assert(sum_vals(b0) == lookup(v.metadata, id)->Some_0.total_supply);
            lemma_sum_nonneg(b0);
        }
        let (aid, mut bal) = self.assets.remove(ia);
        proof {
            assert(bal_view(bal@) == b0);
            assert(assets_view_of(self.assets@) =~= v.assets.remove(ia as int));
        }
        let skey = copy_bytes(&bal[isrc].0);
        bal[isrc] = (skey, sb - value);
        let ghost b1 = bal_view(bal@);
        proof {
            assert(b1 =~= b0.update(isrc as int, (b0[isrc as int].0, (sb - value) as u128)));
            lemma_sum_update(b0, isrc as int, (sb - value) as u128);
            assert(sum_vals(b1) == sum_vals(b0) - value);
            lemma_distinct_update(b0, isrc as int, (sb - value) as u128);
            assert forall|a: Seq<u8>| true implies #[trigger] lookup(b1, a) == (if a == acc@ {
                Some((sb - value) as u128)
            } else {
                lookup(b0, a)
            }) by {
                lemma_lookup_update(b0, isrc as int, (sb - value) as u128, a);
            }
        }
        match find_acct(&bal, &dest) {
            Some(idst) => {
                proof {
                    lemma_lookup_at(b1, dest@, idst as int);
                }
                let d0 = bal[idst].1;
                proof {
                    lemma_sum_entry_bound(b1, idst as int);
                    assert(d0 <= sum_vals(b1));
                    assert(d0 + value <= sum_vals(b0));
                }
                let dkey = copy_bytes(&bal[idst].0);
                bal[idst] = (dkey, d0 + value);
                proof {
                    assert(bal_view(bal@) =~= b1.update(
                        idst as int,
                        (b1[idst as int].0, (d0 + value) as u128),
                    ));
                    lemma_sum_update(b1, idst as int, (d0 + value) as u128);
                    lemma_distinct_update(b1, idst as int, (d0 + value) as u128);
                    assert forall|a: Seq<u8>| true implies #[trigger] lookup(bal_view(bal@), a)
                        == (if a == dest@ {
                        Some((d0 + value) as u128)
                    } else {
                        lookup(b1, a)
                    }) by {
                        lemma_lookup_update(b1, idst as int, (d0 + value) as u128, a);
                    }
                }
            },
            None => {
                proof {
                    lemma_lookup_none(b1, dest@);
                }
                bal.push((copy_bytes(&dest), value));
                proof {
                    assert(bal_view(bal@) =~= b1.push((dest@, value)));
                    lemma_sum_push(b1, (dest@, value));
                    lemma_distinct_push(b1, (dest@, value));
                    assert forall|a: Seq<u8>| true implies #[trigger] lookup(bal_view(bal@), a)
                        == (if a == dest@ && lookup(b1, a) is None {
                        Some(value)
                    } else {
                        lookup(b1, a)
                    }) by {
                        lemma_lookup_push(b1, (dest@, value), a);
                    }
                    assert(lookup(b1, dest@) is None);
                }
            },
        }
        let ghost b2 = bal_view(bal@);
        proof {
            assert(sum_vals(b2) == sum_vals(b0));
            assert(distinct_keys(b2));
            if dest@ == acc@ {
                assert(lookup(b2, acc@) == Some(sb));
            } else {
                assert(lookup(b2, acc@) == Some((sb - value) as u128));
                assert(lookup(b2, dest@) == Some((entry_or_zero(b0, dest@) + value) as u128));
            }
            assert(forall|a: Seq<u8>|
                a != acc@ && a != dest@ ==> #[trigger] lookup(b2, a) == lookup(b0, a));
        }
        self.assets.insert(ia, (aid, bal));
        proof {
            let wassets = assets_view_of(self.assets@);
            assert(wassets =~= v.assets.update(ia as int, (id, b2)));
            lemma_distinct_update(v.assets, ia as int, b2);
            assert forall|k: u32| true implies #[trigger] lookup(wassets, k) == (if k == id {
                Some(b2)
            } else {
                lookup(v.assets, k)
            }) by {
                lemma_lookup_update(v.assets, ia as int, b2, k);
            }
            // well-formedness of the balance side: only entry `ia` changed,
            // and it kept its key.
            assert forall|i: int| 0 <= i < wassets.len() implies contains_key(
                md_view_of(self.metadata@),
                (#[trigger] wassets[i]).0,
            ) by {
                assert(wassets[i].0 == v.assets[i].0);
            }
            assert forall|i: int| 0 <= i < wassets.len() implies distinct_keys(
                (#[trigger] wassets[i]).1,
            ) by {
                if i != ia as int {
                    assert(wassets[i] == v.assets[i]);
                }
            }
            assert forall|i: int| 0 <= i < wassets.len() implies sum_vals(
                (#[trigger] wassets[i]).1,
            ) == lookup(md_view_of(self.metadata@), wassets[i].0)->Some_0.total_supply by {
                if i != ia as int {
                    assert(wassets[i] == v.assets[i]);
                } else {
                    assert(wassets[i].0 == id);
                    assert(sum_vals(b2) == lookup(v.metadata, id)->Some_0.total_supply);
                }
            }
            assert forall|i: int| 0 <= i < v.metadata.len() implies contains_key(
                wassets,
                (#[trigger] v.metadata[i]).0,
            ) by {
                if v.metadata[i].0 != id {
                    assert(lookup(wassets, v.metadata[i].0) == lookup(v.assets, v.metadata[i].0));
                    assert(contains_key(v.assets, v.metadata[i].0));
                }
            }
            assert forall|a: int, b: int| 0 <= a < b < wassets.len() implies wassets[a].0
                < wassets[b].0 by {
                assert(wassets[a].0 == v.assets[a].0);
                assert(wassets[b].0 == v.assets[b].0);
            }
        }
        let tx = AssetsTx {
            txref: TxRef { blocknum: context.block_number, index: number },
            asset_id: id,
            from: copy_bytes(&acc),
            to: copy_bytes(&dest),
            amount: value,
        };
        let ghost h0 = hist_view_of(self.history@);
        if watchlist_contains(&self.watchlist, &acc) {
            hist_append(&mut self.history, &acc, &tx);
        }
        let ghost h1 = hist_view_of(self.history@);
        if watchlist_contains(&self.watchlist, &dest) {
            hist_append(&mut self.history, &dest, &tx);
        }
        proof {
            let h2 = hist_view_of(self.history@);
            let txv = TxView {
                txref: TxRef { blocknum: context.block_number, index: number },
                asset_id: id,
                from: acc@,
                to: dest@,
                amount: value,
            };
            assert(tx@ == txv);
            if !spec_watched(v.watchlist, acc@) && !spec_watched(v.watchlist, dest@) {
                assert(h2 == h0);
            }
            assert(spec_hist_updated(h0, h2, v.watchlist, acc@, dest@, txv));
        }
        TransactionStatus::Accepted
    }
}


/// The read-only queries of the ledger contract.
pub enum Request {
    /// One account's balance in one asset; only that account may ask.
    Balance { id: u32, account: Vec<u8> },
    /// The fixed total supply of one asset.
    TotalSupply { id: u32 },
    /// The metadata of every live asset.
    Metadata,
    /// The recorded transfers of one account.
    History { account: Vec<u8> },
    /// Every live asset with the caller's balance in it, optionally only
    /// those the caller holds.
    ListAssets { available_only: bool },
}

/// The mathematical value of a query.
pub enum RequestView {
    Balance { id: u32, account: Seq<u8> },
    TotalSupply { id: u32 },
    Metadata,
    History { account: Seq<u8> },
    ListAssets { available_only: bool },
}

impl View for Request {
    type V = RequestView;

    open spec fn view(&self) -> RequestView {
        match self {
            Request::Balance { id, account } => RequestView::Balance {
                id: *id,
                account: account@,
            },
            Request::TotalSupply { id } => RequestView::TotalSupply { id: *id },
            Request::Metadata => RequestView::Metadata,
            Request::History { account } => RequestView::History { account: account@ },
            Request::ListAssets { available_only } => RequestView::ListAssets {
                available_only: *available_only,
            },
        }
    }
}

/// Why a query was refused.
#[derive(Clone, Copy, PartialEq, Eq, Structural, Debug)]
pub enum QueryError {
    /// The caller may not see the queried value.
    NotAuthorized,
    /// The named asset does not exist.
    AssetIdNotFound,
}

/// The answers of the ledger contract.
pub enum Response {
    Balance { balance: u128 },
    TotalSupply { total_issuance: u128 },
    Metadata { metadata: Vec<AssetMetadata> },
    History { history: Vec<AssetsTx> },
    ListAssets { assets: Vec<AssetMetadataBalance> },
    Error(QueryError),
}

/// The view of a list of metadata records.
pub open spec fn md_list_view(v: Seq<AssetMetadata>) -> Seq<MetadataView> {
    Seq::new(v.len(), |i: int| v[i]@)
}

/// The view of a list of metadata-with-balance records.
pub open spec fn amb_view(v: Seq<AssetMetadataBalance>) -> Seq<(MetadataView, u128)> {
    Seq::new(v.len(), |i: int| (v[i].metadata@, v[i].balance))
}

/// The mathematical value of an answer.
pub enum ResponseView {
    Balance { balance: u128 },
    TotalSupply { total_issuance: u128 },
    Metadata { metadata: Seq<MetadataView> },
    History { history: Seq<TxView> },
    ListAssets { assets: Seq<(MetadataView, u128)> },
    Error(QueryError),
}

impl View for Response {
    type V = ResponseView;

    open spec fn view(&self) -> ResponseView {
        match self {
            Response::Balance { balance } => ResponseView::Balance { balance: *balance },
            Response::TotalSupply { total_issuance } => ResponseView::TotalSupply {
                total_issuance: *total_issuance,
            },
            Response::Metadata { metadata } => ResponseView::Metadata {
                metadata: md_list_view(metadata@),
            },
            Response::History { history } => ResponseView::History { history: txs_view(history@) },
            Response::ListAssets { assets } => ResponseView::ListAssets {
                assets: amb_view(assets@),
            },
            Response::Error(e) => ResponseView::Error(*e),
        }
    }
}

/// The metadata of every live asset, in table order.
pub open spec fn md_values(md: Seq<(u32, MetadataView)>) -> Seq<MetadataView> {
    Seq::new(md.len(), |i: int| md[i].1)
}

/// The asset listing projected for an account: each asset of the table in
/// order, with the account's balance in it, dropping the assets it does
/// not hold when `available_only` is set.
pub open spec fn spec_list_assets(
    assets: Seq<(u32, Seq<(Seq<u8>, u128)>)>,
    md: Seq<(u32, MetadataView)>,
    acc: Seq<u8>,
    available_only: bool,
) -> Seq<(MetadataView, u128)>
    decreases assets.len(),
{
    if assets.len() == 0 {
        Seq::empty()
    } else {
        let bal = entry_or_zero(assets[0].1, acc);
        let rest = spec_list_assets(assets.skip(1), md, acc, available_only);
        if available_only && bal == 0 {
            rest
        } else {
            seq![(lookup(md, assets[0].0)->Some_0, bal)] + rest
        }
    }
}

/// In a table whose entries carry their own key as their id, the entry a
/// lookup finds carries the looked-up key.
pub proof fn lemma_lookup_id_is_key(md: Seq<(u32, MetadataView)>, k: u32)
    requires
        forall|i: int| 0 <= i < md.len() ==> (#[trigger] md[i]).1.id == md[i].0,
        contains_key(md, k),
    ensures
        lookup(md, k)->Some_0.id == k,
    decreases md.len(),
{
    if md[0].0 == k {
    } else {
        assert(forall|i: int| 0 <= i < md.skip(1).len() ==> md.skip(1)[i] == md[i + 1]);
        lemma_lookup_id_is_key(md.skip(1), k);
    }
}

/// The asset listing of an ascending balance table is itself in strictly
/// ascending id order, and no listed id is below the table's first key.
pub proof fn lemma_list_assets_ascending(
    assets: Seq<(u32, Seq<(Seq<u8>, u128)>)>,
    md: Seq<(u32, MetadataView)>,
    acc: Seq<u8>,
    available_only: bool,
)
    requires
        ascending_ids(assets),
        forall|i: int| 0 <= i < assets.len() ==> contains_key(md, (#[trigger] assets[i]).0),
        forall|i: int| 0 <= i < md.len() ==> (#[trigger] md[i]).1.id == md[i].0,
    ensures
        ({
            let r = spec_list_assets(assets, md, acc, available_only);
            &&& (forall|i: int, j: int|
                0 <= i < j < r.len() ==> (#[trigger] r[i]).0.id < (#[trigger] r[j]).0.id)
            &&& (forall|i: int|
                0 <= i < r.len() ==> assets.len() > 0 && assets[0].0 <= (#[trigger] r[i]).0.id)
        }),
    decreases assets.len(),
{
    let r = spec_list_assets(assets, md, acc, available_only);
    if assets.len() > 0 {
        let k0 = assets[0].0;
        lemma_lookup_id_is_key(md, k0);
        assert(forall|i: int| 0 <= i < assets.skip(1).len() ==> assets.skip(1)[i] == assets[i
            + 1]);
        assert(ascending_ids(assets.skip(1)));
        assert(forall|i: int|
            0 <= i < assets.skip(1).len() ==> contains_key(md, (#[trigger] assets.skip(1)[i]).0));
        lemma_list_assets_ascending(assets.skip(1), md, acc, available_only);
        let rest = spec_list_assets(assets.skip(1), md, acc, available_only);
        let bal = entry_or_zero(assets[0].1, acc);
        if available_only && bal == 0 {
            assert(r == rest);
            assert forall|i: int| 0 <= i < r.len() implies assets.len() > 0 && assets[0].0 <= (
            #[trigger] r[i]).0.id by {
                assert(rest[i].0.id >= assets.skip(1)[0].0);
                assert(assets.skip(1)[0].0 == assets[1].0);
            }
        } else {
            let head = (lookup(md, k0)->Some_0, bal);
            assert(r == seq![head] + rest);
            assert(r[0] == head);
            assert(forall|i: int| 0 <= i < rest.len() ==> r[i + 1] == rest[i]);
            assert forall|i: int, j: int| 0 <= i < j < r.len() implies (#[trigger] r[i]).0.id < (
            #[trigger] r[j]).0.id by {
                if i == 0 {
                    assert(rest[j - 1].0.id >= assets.skip(1)[0].0);
                    assert(assets.skip(1)[0].0 == assets[1].0);
                    assert(k0 < assets[1].0);
                } else {
                    assert(r[i] == rest[i - 1] && r[j] == rest[j - 1]);
                }
            }
            assert forall|i: int| 0 <= i < r.len() implies assets.len() > 0 && assets[0].0 <= (
            #[trigger] r[i]).0.id by {
                if i > 0 {
                    assert(r[i] == rest[i - 1]);
                    assert(rest[i - 1].0.id >= assets.skip(1)[0].0);
                    assert(assets.skip(1)[0].0 == assets[1].0);
                }
            }
        }
    }
}

impl Assets {
    /// Answers one read-only query.  A balance may be asked only by its
    /// own account, and an asset listing only by an authenticated caller;
    /// supply, metadata and history are open.  Domain failures come back
    /// as `Error` responses, never as aborts.
    pub fn apply_query(&self, origin: Option<&Vec<u8>>, req: &Request) -> (r: Response)
        requires
            self@.wf(),
        ensures
            ({
                let v = self@;
                match req@ {
                    RequestView::Balance { id, account } => if !(origin matches Some(o) && o@
                        == account) {
                        r@ == ResponseView::Error(QueryError::NotAuthorized)
                    } else {
                        match lookup(v.metadata, id) {
                            Option::None => r@ == ResponseView::Error(QueryError::AssetIdNotFound),
                            Option::Some(_) => r@ == ResponseView::Balance {
                                balance: entry_or_zero(lookup(v.assets, id)->Some_0, account),
                            },
                        }
                    },
                    RequestView::TotalSupply { id } => match lookup(v.metadata, id) {
                        Option::None => r@ == ResponseView::Error(QueryError::AssetIdNotFound),
                        Option::Some(md) => r@ == ResponseView::TotalSupply {
                            total_issuance: md.total_supply,
                        },
                    },
                    RequestView::Metadata => ({
                        let m = md_values(v.metadata);
                        r@ == ResponseView::Metadata { metadata: m } && (forall|i: int, j: int|
                            0 <= i < j < m.len() ==> (#[trigger] m[i]).id < (#[trigger] m[j]).id)
                    }),
                    RequestView::History { account } => r@ == ResponseView::History {
                        history: entry_or_empty(v.history, account),
                    },
                    RequestView::ListAssets { available_only } => match origin {
                        Option::None => r@ == ResponseView::Error(QueryError::NotAuthorized),
                        Option::Some(o) => ({
                            let listing = spec_list_assets(v.assets, v.metadata, o@, available_only);
                            r@ == ResponseView::ListAssets { assets: listing } && (forall|
                                i: int,
                                j: int,
                            |
                                0 <= i < j < listing.len() ==> (#[trigger] listing[i]).0.id < (
                                #[trigger] listing[j]).0.id)
                        }),
                    },
                }
            }),
    {
        let ghost v = self@;
        match req {
            Request::Balance { id, account } => {
                let authorized = match origin {
                    Some(o) => bytes_eq(o, account),
                    None => false,
                };
                if !authorized {
                    return Response::Error(QueryError::NotAuthorized);
                }
                let im = match find_meta(&self.metadata, *id) {
                    Some(x) => x,
                    None => {
                        proof {
                            lemma_lookup_none(v.metadata, *id);
                        }
                        return Response::Error(QueryError::AssetIdNotFound);
                    },
                };
                proof {
                    lemma_lookup_at(v.metadata, *id, im as int);
                }
                let ia = match find_asset(&self.assets, *id) {
                    Some(x) => x,
                    None => {
                        proof {
                            assert(contains_key(v.assets, v.metadata[im as int].0));
                            lemma_lookup_is_some(v.assets, *id);
                            assert(false);
                        }
                        return Response::Error(QueryError::AssetIdNotFound);
                    },
                };
                proof {
                    lemma_lookup_at(v.assets, *id, ia as int);
                }
                let balance = match find_acct(&self.assets[ia].1, account) {
                    Some(ib) => {
                        proof {
                            lemma_lookup_at(v.assets[ia as int].1, account@, ib as int);
                        }
                        self.assets[ia].1[ib].1
                    },
                    None => {
                        proof {
                            lemma_lookup_none(v.assets[ia as int].1, account@);
                        }
                        0
                    },
                };
                Response::Balance { balance }
            },
            Request::TotalSupply { id } => {
                match find_meta(&self.metadata, *id) {
                    Some(im) => {
                        proof {
                            lemma_lookup_at(v.metadata, *id, im as int);
                        }
                        Response::TotalSupply { total_issuance: self.metadata[im].1.total_supply }
                    },
                    None => {
                        proof {
                            lemma_lookup_none(v.metadata, *id);
                        }
                        Response::Error(QueryError::AssetIdNotFound)
                    },
                }
            },
            Request::Metadata => {
                let mut out: Vec<AssetMetadata> = Vec::new();
                let n: usize = self.metadata.len();
                let mut i: usize = 0;
                while i < n
                    invariant
                        n == self.metadata@.len(),
                        v == self@,
                        v.metadata.len() == n,
                        0 <= i <= n,
                        out@.len() == i,
                        forall|j: int| 0 <= j < i ==> (#[trigger] out@[j])@ == v.metadata[j].1,
                    decreases n - i,
                {
                    out.push(self.metadata[i].1.duplicate());
                    i += 1;
                }
                proof {
                    assert(md_list_view(out@) =~= md_values(v.metadata));
                    let m = md_values(v.metadata);
                    assert forall|a: int, b: int| 0 <= a < b < m.len() implies (
                    #[trigger] m[a]).id < (#[trigger] m[b]).id by {
                        assert(m[a] == v.metadata[a].1);
                        assert(m[b] == v.metadata[b].1);
                    }
                }
                Response::Metadata { metadata: out }
            },
            Request::History { account } => {
                match find_hist(&self.history, account) {
                    Some(ih) => {
                        proof {
                            lemma_lookup_at(v.history, account@, ih as int);
                        }
                        let src = &self.history[ih].1;
                        let mut out: Vec<AssetsTx> = Vec::new();
                        let n: usize = src.len();
                        let mut i: usize = 0;
                        while i < n
                            invariant
                                n == src@.len(),
                                0 <= i <= n,
                                out@.len() == i,
                                forall|j: int| 0 <= j < i ==> (#[trigger] out@[j])@ == src@[j]@,
                            decreases n - i,
                        {
                            out.push(src[i].duplicate());
                            i += 1;
                        }
                        proof {
                            assert(txs_view(out@) =~= txs_view(src@));
                        }
                        Response::History { history: out }
                    },
                    None => {
                        proof {
                            lemma_lookup_none(v.history, account@);
                        }
                        let out: Vec<AssetsTx> = Vec::new();
                        proof {
                            assert(txs_view(out@) =~= Seq::<TxView>::empty());
                        }
                        Response::History { history: out }
                    },
                }
            },
            Request::ListAssets { available_only } => {
                let o = match origin {
                    Some(o) => o,
                    None => {
                        return Response::Error(QueryError::NotAuthorized);
                    },
                };
                let mut out: Vec<AssetMetadataBalance> = Vec::new();
                proof {
                    assert(v.assets.skip(0) =~= v.assets);
                    assert(amb_view(out@) =~= Seq::<(MetadataView, u128)>::empty());
                    assert(Seq::<(MetadataView, u128)>::empty() + spec_list_assets(
                        v.assets,
                        v.metadata,
                        o@,
                        *available_only,
                    ) =~= spec_list_assets(v.assets, v.metadata, o@, *available_only));
                }
                let n: usize = self.assets.len();
                let mut i: usize = 0;
                while i < n
                    invariant
                        n == self.assets@.len(),
                        v == self@,
                        self@.wf(),
                        v.assets.len() == n,
                        0 <= i <= n,
                        spec_list_assets(v.assets, v.metadata, o@, *available_only) =~= amb_view(
                            out@,
                        ) + spec_list_assets(
                            v.assets.skip(i as int),
                            v.metadata,
                            o@,
                            *available_only,
                        ),
                    decreases n - i,
                {
                    let ghost pre = amb_view(out@);
                    proof {
                        assert(v.assets.skip(i as int)[0] == v.assets[i as int]);
                        assert(v.assets.skip(i as int).skip(1) =~= v.assets.skip(i + 1));
                    }
                    let balance = match find_acct(&self.assets[i].1, o) {
                        Some(ib) => {
                            proof {
                                lemma_lookup_at(v.assets[i as int].1, o@, ib as int);
                            }
                            self.assets[i].1[ib].1
                        },
                        None => {
                            proof {
                                lemma_lookup_none(v.assets[i as int].1, o@);
                            }
                            0
                        },
                    };
                    assert(balance == entry_or_zero(v.assets[i as int].1, o@));
                    if !(*available_only && balance == 0) {
                        let im = match find_meta(&self.metadata, self.assets[i].0) {
                            Some(x) => x,
                            None => {
                                proof {
                                    assert(contains_key(v.metadata, v.assets[i as int].0));
                                    lemma_lookup_is_some(v.metadata, v.assets[i as int].0);
                                    assert(false);
                                }
                                return Response::Error(QueryError::AssetIdNotFound);
                            },
                        };
                        proof {
                            lemma_lookup_at(v.metadata, v.assets[i as int].0, im as int);
                        }
                        out.push(
                            AssetMetadataBalance {
                                metadata: self.metadata[im].1.duplicate(),
                                balance,
                            },
                        );
                        proof {
                            assert(amb_view(out@) =~= pre.push(
                                (lookup(v.metadata, v.assets[i as int].0)->Some_0, balance),
                            ));
                            assert(seq![(lookup(v.metadata, v.assets[i as int].0)->Some_0, balance)]
                                + spec_list_assets(
                                v.assets.skip(i + 1),
                                v.metadata,
                                o@,
                                *available_only,
                            ) =~= spec_list_assets(v.assets.skip(i as int), v.metadata, o@, *available_only));
                            assert(pre.push((lookup(v.metadata, v.assets[i as int].0)->Some_0, balance))
                                + spec_list_assets(v.assets.skip(i + 1), v.metadata, o@, *available_only)
                                =~= pre + spec_list_assets(v.assets.skip(i as int), v.metadata, o@, *available_only));
                        }
                    }
                    i += 1;
                }
                proof {
                    assert(v.assets.skip(n as int) =~= Seq::<(u32, Seq<(Seq<u8>, u128)>)>::empty());
                    assert(spec_list_assets(
                        Seq::<(u32, Seq<(Seq<u8>, u128)>)>::empty(),
                        v.metadata,
                        o@,
                        *available_only,
                    ) == Seq::<(MetadataView, u128)>::empty());
                    assert(amb_view(out@) + Seq::<(MetadataView, u128)>::empty() =~= amb_view(
                        out@,
                    ));
                    assert(amb_view(out@) =~= spec_list_assets(
                        v.assets,
                        v.metadata,
                        o@,
                        *available_only,
                    ));
                    lemma_list_assets_ascending(v.assets, v.metadata, o@, *available_only);
                }
                Response::ListAssets { assets: out }
            },
        }
    }

    /// Applies one command for an origin.  Only a user account may
    /// command the ledger (`BadOrigin`); the command then runs as one
    /// atomic state change whose terminal outcome is the returned status.
    pub fn apply_command(
        &mut self,
        context: &NativeContext,
        origin: &MessageOrigin,
        cmd: PushCommand<AssetCommand>,
    ) -> (r: TransactionStatus)
        requires
            old(self)@.wf(),
            cmd.command is Issue ==> old(self)@.next_id < u32::MAX,
        ensures
            final(self)@.wf(),
            final(self)@.watchlist == old(self)@.watchlist,
            ({
                let v = old(self)@;
                let w = final(self)@;
                match spec_origin_account(origin@) {
                    Option::None => r == TransactionStatus::BadOrigin && w == v,
                    Option::Some(acc) => match cmd.command@ {
                        CommandView::Issue { symbol, total } => spec_issue_post(
                            v,
                            w,
                            acc,
                            symbol,
                            total,
                            r,
                        ),
                        CommandView::Destroy { id } => spec_destroy_post(v, w, acc, id, r),
                        CommandView::Transfer { id, dest, value } => spec_transfer_post(
                            v,
                            w,
                            acc,
                            id,
                            dest,
                            value,
                            TxView {
                                txref: TxRef { blocknum: context.block_number, index: cmd.number },
                                asset_id: id,
                                from: acc,
                                to: dest,
                                amount: value,
                            },
                            r,
                        ),
                    },
                }
            }),
    {
        let acc: Vec<u8> = match origin {
            MessageOrigin::AccountId(a) => copy_bytes(a),
            _ => {
                return TransactionStatus::BadOrigin;
            },
        };
        let number = cmd.number;
        match cmd.command {
            AssetCommand::Issue { symbol, total } => self.issue(acc, symbol, total),
            AssetCommand::Destroy { id } => self.destroy(acc, id),
            AssetCommand::Transfer { id, dest, value } => self.transfer(
                context,
                number,
                acc,
                id,
                dest,
                value,
            ),
        }
    }
}

impl NativeContract for Assets {
    type Cmd = AssetCommand;

    type QReq = Request;

    type QResp = Response;

    open spec fn wf(&self) -> bool {
        self@.wf()
    }

    open spec fn command_allowed(&self, cmd: &PushCommand<AssetCommand>) -> bool {
        cmd.command is Issue ==> self@.next_id < u32::MAX
    }

    fn id(&self) -> u32 {
        ASSETS
    }

    fn handle_command(
        &mut self,
        context: &NativeContext,
        origin: &MessageOrigin,
        cmd: PushCommand<AssetCommand>,
    ) -> (r: TransactionStatus) {
        self.apply_command(context, origin, cmd)
    }

    fn handle_query(&self, origin: Option<&Vec<u8>>, req: &Request) -> (r: Response) {
        self.apply_query(origin, req)
    }
}


/// Asset ids are never reused.  In a well-formed ledger every live id is
/// smaller than `next_id`; destroying an asset does not move `next_id`;
/// and an accepted issue allocates exactly `next_id`.  So after an asset
/// is destroyed, the id a later issue allocates is strictly greater than
/// the destroyed one — in particular, never that id again.
pub proof fn lemma_id_non_reuse(
    v: AssetsView,
    w: AssetsView,
    x: AssetsView,
    acc: Seq<u8>,
    id: u32,
    acc2: Seq<u8>,
    symbol: Seq<u8>,
    total: u128,
)
    requires
        v.wf(),
        spec_destroy_post(v, w, acc, id, TransactionStatus::Accepted),
        spec_issue_post(w, x, acc2, symbol, total, TransactionStatus::Accepted),
    ensures
        id < w.next_id,
        lookup(x.metadata, w.next_id) is Some,
        w.next_id != id,
{
    lemma_lookup_is_some(v.metadata, id);
    let i = choose|i: int| 0 <= i < v.metadata.len() && v.metadata[i].0 == id;
    assert(v.metadata[i].0 < v.next_id);
}

} // verus!
