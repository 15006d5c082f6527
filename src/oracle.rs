//! The oracle: admin-gated configuration, price submission and the price
//! queries built on the registry and the ledger.
use vstd::prelude::*;
use crate::asset::{Asset, AssetView};
use crate::error::Error;
use crate::key_codec::{lemma_key_injective, lemma_key_round_trip};
use crate::fixed_point::{
    checked_fixed_div_floor, fixed_div, fixed_div_defined, pow10, pow10_exec, MAX_DECIMALS,
    lemma_fixed_div_range, lemma_pow10_monotonic, lemma_pow10_positive, lemma_pow10_38,
};
use crate::ledger::{
    entries_map, get_normalized_timestamp, is_valid_timestamp, normalize, put_record, record, PriceLedger,
};
use crate::registry::{
    batch_error, copy_assets, index_of, lemma_index_of, valid_registry, views, AssetRegistry,
};

verus! {

/// A price, scaled by the oracle's decimals, and the timestamp (ms) of the
/// bucket it was recorded for.
#[derive(Debug, Clone, Copy, PartialEq, Eq, Structural)]
pub struct PriceData {
    pub price: i128,
    pub timestamp: u64,
}

/// Defaults of a freshly created oracle, before it is configured.
pub struct Constants;

impl Constants {
    /// Decimal places of quoted prices.
    pub const DECIMALS: u32 = 14;
    /// Width of a price bucket, in milliseconds.
    pub const RESOLUTION: u32 = 300000;
}

/// The most records a series query walks back over.
pub const MAX_RECORDS: u32 = 20;

/// The parameters an oracle is configured with, once.
#[derive(Debug)]
pub struct ConfigData {
    /// The only account allowed to change the oracle.
    pub admin: String,
    /// How long (ms) a record is kept: storing a price drops the record of
    /// the same asset this much older. 0 keeps everything.
    pub period: u64,
    /// The initial quoted assets, in index order.
    pub assets: Vec<Asset>,
    /// The asset prices are quoted in.
    pub base_asset: Asset,
    /// Decimal places of quoted prices.
    pub decimals: u32,
    /// Width of a price bucket, in milliseconds.
    pub resolution: u32,
    /// The configuration version this call establishes: the current one
    /// plus one.
    pub version: u32,
    /// When set, the latest records count as available only while the
    /// ledger clock is less than this many ms past them and not before
    /// them, and an average needs every record it asks for.
    pub max_staleness: Option<u64>,
}

/// What a series query samples at each timestamp: one asset's price, or the
/// cross price of a (base, quote) pair of asset indexes.
#[derive(Debug, Clone, Copy, PartialEq, Eq, Structural)]
pub enum Quote {
    Single(u8),
    Cross(u8, u8),
}

/// The state of an oracle, as values.
pub struct OracleView {
    pub admin: Option<Seq<char>>,
    pub base_asset: AssetView,
    pub decimals: u32,
    pub resolution: u32,
    pub period: u64,
    pub max_staleness: Option<u64>,
    pub version: u32,
    pub assets: Seq<AssetView>,
    pub records: Map<u128, i128>,
    pub last_timestamp: u64,
}

/// The oracle state a host keeps between calls.
pub struct PriceOracle {
    admin: Option<String>,
    base_asset: Asset,
    decimals: u32,
    resolution: u32,
    period: u64,
    max_staleness: Option<u64>,
    version: u32,
    registry: AssetRegistry,
    ledger: PriceLedger,
}

impl View for PriceOracle {
    type V = OracleView;

    closed spec fn view(&self) -> OracleView {
        OracleView {
            admin: match self.admin {
                Some(a) => Some(a@),
                None => None,
            },
            base_asset: self.base_asset@,
            decimals: self.decimals,
            resolution: self.resolution,
            period: self.period,
            max_staleness: self.max_staleness,
            version: self.version,
            assets: self.registry@,
            records: self.ledger.records(),
            last_timestamp: self.ledger.last(),
        }
    }
}

/// A state the oracle can be in: a positive resolution, decimals whose power
/// of ten fits an `i128`, a valid registry and positive prices.
pub open spec fn valid_state(v: OracleView) -> bool {
    &&& v.resolution > 0
    &&& v.decimals <= MAX_DECIMALS
    &&& valid_registry(v.assets)
    &&& crate::ledger::positive_records(v.records)
}

/// Whether `who` is the configured admin.
pub open spec fn is_admin(v: OracleView, who: Seq<char>) -> bool {
    v.admin == Some(who)
}

/// Whether `version` is the one a configuration change must carry.
pub open spec fn next_version(v: OracleView, version: u32) -> bool {
    version as int == v.version as int + 1
}

/// The record of asset `index` at `t`, as a price record.
pub open spec fn single_sample(v: OracleView, index: u8, t: u64) -> Option<PriceData> {
    match record(v.records, index, t) {
        Some(p) => Some(PriceData { price: p, timestamp: t }),
        None => None,
    }
}

/// The cross price of `base` in `quote` at `t`: 10^decimals for one asset
/// with itself; otherwise the fixed-point ratio of the two records, when
/// both exist and the ratio is defined.
pub open spec fn cross_sample(v: OracleView, base: u8, quote: u8, t: u64) -> Option<PriceData> {
    if base == quote {
        Some(PriceData { price: pow10(v.decimals as nat) as i128, timestamp: t })
    } else {
        match (record(v.records, base, t), record(v.records, quote, t)) {
            (Some(x), Some(y)) => if fixed_div_defined(x as int, y as int, v.decimals as nat) {
                Some(
                    PriceData {
                        price: fixed_div(x as int, y as int, v.decimals as nat) as i128,
                        timestamp: t,
                    },
                )
            } else {
                None
            },
            _ => None,
        }
    }
}

/// What `q` samples at `t`.
pub open spec fn sample(v: OracleView, q: Quote, t: u64) -> Option<PriceData> {
    match q {
        Quote::Single(i) => single_sample(v, i, t),
        Quote::Cross(b, c) => cross_sample(v, b, c, t),
    }
}

/// The indexes of a pair of assets, when both are registered.
pub open spec fn pair_of(v: OracleView, base: AssetView, quote: AssetView) -> Option<(u8, u8)> {
    match (index_of(v.assets, base), index_of(v.assets, quote)) {
        (Some(b), Some(c)) => Some((b as u8, c as u8)),
        _ => None,
    }
}

/// The timestamp the latest-record queries read at: the last written one,
/// or 0 (nothing available) when none was written or, under a staleness
/// bound, when the clock `now` is before it or too far past it.
pub open spec fn anchor(v: OracleView, now: u64) -> u64 {
    let last = v.last_timestamp;
    if last == 0 {
        0
    } else {
        match v.max_staleness {
            None => last,
            Some(d) => if last > now || now - last >= d {
                0
            } else {
                last
            },
        }
    }
}

/// The price of `asset` in the bucket of `t`.
pub open spec fn price_at(v: OracleView, asset: AssetView, t: u64) -> Option<PriceData> {
    match index_of(v.assets, asset) {
        Some(i) => single_sample(v, i as u8, normalize(t, v.resolution as u64)),
        None => None,
    }
}

/// The latest price of `asset`.
pub open spec fn last_price(v: OracleView, asset: AssetView, now: u64) -> Option<PriceData> {
    if anchor(v, now) == 0 {
        None
    } else {
        match index_of(v.assets, asset) {
            Some(i) => single_sample(v, i as u8, anchor(v, now)),
            None => None,
        }
    }
}

/// The cross price of `base` in `quote` in the bucket of `t`.
pub open spec fn cross_price_at(v: OracleView, base: AssetView, quote: AssetView, t: u64) -> Option<
    PriceData,
> {
    match pair_of(v, base, quote) {
        Some((b, c)) => cross_sample(v, b, c, normalize(t, v.resolution as u64)),
        None => None,
    }
}

/// The latest cross price of `base` in `quote`.
pub open spec fn last_cross_price(v: OracleView, base: AssetView, quote: AssetView, now: u64) -> Option<
    PriceData,
> {
    if anchor(v, now) == 0 {
        None
    } else {
        match pair_of(v, base, quote) {
            Some((b, c)) => cross_sample(v, b, c, anchor(v, now)),
            None => None,
        }
    }
}

/// How many buckets a series starting at `a` walks back over: `records`,
/// at most `MAX_RECORDS`, and no further back than timestamp 0.
pub open spec fn steps(a: u64, resolution: u64, records: u32) -> nat {
    let cap: nat = if records > MAX_RECORDS {
        MAX_RECORDS as nat
    } else {
        records as nat
    };
    if (a / resolution) < cap {
        (a / resolution + 1) as nat
    } else {
        cap
    }
}

/// The samples of `q` found in the first `count` buckets walking back from
/// `a`, most recent first.
pub open spec fn walk(v: OracleView, q: Quote, a: u64, count: nat) -> Seq<PriceData>
    decreases count,
{
    if count == 0 {
        Seq::empty()
    } else {
        let earlier = walk(v, q, a, (count - 1) as nat);
        match sample(v, q, (a - (count - 1) * v.resolution) as u64) {
            Some(p) => earlier.push(p),
            None => earlier,
        }
    }
}

/// The series of `q` over up to `records` recent buckets; absent when it
/// would be empty.
pub open spec fn series(v: OracleView, q: Quote, records: u32, now: u64) -> Option<Seq<PriceData>> {
    let a = anchor(v, now);
    if a == 0 {
        None
    } else {
        let s = walk(v, q, a, steps(a, v.resolution as u64, records));
        if s.len() == 0 {
            None
        } else {
            Some(s)
        }
    }
}

/// The sum of the prices of `s`.
pub open spec fn sum_prices(s: Seq<PriceData>) -> int
    decreases s.len(),
{
    if s.len() == 0 {
        0
    } else {
        sum_prices(s.drop_last()) + s.last().price
    }
}

/// The mean price of the series of `q`: absent when the series is, when a
/// staleness bound is set and the series misses a record, or when the sum
/// does not fit an `i128`.
pub open spec fn mean(v: OracleView, q: Quote, records: u32, now: u64) -> Option<i128> {
    match series(v, q, records, now) {
        None => None,
        Some(s) => if v.max_staleness is Some && s.len() != records {
            None
        } else if sum_prices(s) > i128::MAX {
            None
        } else {
            Some((sum_prices(s) / (s.len() as int)) as i128)
        },
    }
}

/// The series of `asset`.
pub open spec fn prices_of(v: OracleView, asset: AssetView, records: u32, now: u64) -> Option<
    Seq<PriceData>,
> {
    match index_of(v.assets, asset) {
        Some(i) => series(v, Quote::Single(i as u8), records, now),
        None => None,
    }
}

/// The series of cross prices of `base` in `quote`.
pub open spec fn cross_prices_of(
    v: OracleView,
    base: AssetView,
    quote: AssetView,
    records: u32,
    now: u64,
) -> Option<Seq<PriceData>> {
    match pair_of(v, base, quote) {
        Some((b, c)) => series(v, Quote::Cross(b, c), records, now),
        None => None,
    }
}

/// The average price of `asset`.
pub open spec fn twap_of(v: OracleView, asset: AssetView, records: u32, now: u64) -> Option<i128> {
    match index_of(v.assets, asset) {
        Some(i) => mean(v, Quote::Single(i as u8), records, now),
        None => None,
    }
}

/// The average cross price of `base` in `quote`.
pub open spec fn cross_twap_of(
    v: OracleView,
    base: AssetView,
    quote: AssetView,
    records: u32,
    now: u64,
) -> Option<i128> {
    match pair_of(v, base, quote) {
        Some((b, c)) => mean(v, Quote::Cross(b, c), records, now),
        None => None,
    }
}

/// Why configuring fails, if it does: a second configuration, a version
/// other than the current one plus one, or an initial asset list that
/// cannot be registered.
pub open spec fn config_error(v: OracleView, version: u32, assets: Seq<AssetView>) -> Option<Error> {
    if v.admin is Some {
        Some(Error::AlreadyInitialized)
    } else if !next_version(v, version) {
        Some(Error::InvalidConfigVersion)
    } else {
        batch_error(v.assets, assets)
    }
}

/// Why an admin change carrying `version` fails, if it does, before its own
/// checks: a caller other than the admin, or a stale version.
pub open spec fn change_error(v: OracleView, invoker: Seq<char>, version: u32) -> Option<Error> {
    if !is_admin(v, invoker) {
        Some(Error::Unauthorized)
    } else if !next_version(v, version) {
        Some(Error::InvalidConfigVersion)
    } else {
        None
    }
}

/// Why adding `assets` fails, if it does.
pub open spec fn add_assets_error(
    v: OracleView,
    invoker: Seq<char>,
    assets: Seq<AssetView>,
    version: u32,
) -> Option<Error> {
    if change_error(v, invoker, version) is Some {
        change_error(v, invoker, version)
    } else {
        batch_error(v.assets, assets)
    }
}

impl PriceOracle {
    /// The state is one the oracle can be in.
    pub closed spec fn wf(&self) -> bool {
        &&& valid_state(self@)
        &&& self.registry.wf()
        &&& self.ledger.wf()
    }

    /// The state always satisfies `valid_state`.
    pub proof fn lemma_wf(&self)
        requires
            self.wf(),
        ensures
            valid_state(self@),
    {
    }

    /// A fresh, unconfigured oracle: no admin, no assets, no records, and
    /// the default decimals and resolution.
    pub fn new() -> (r: PriceOracle)
        ensures
            r.wf(),
            r@.admin is None,
            r@.version == 0,
            r@.period == 0,
            r@.max_staleness is None,
            r@.decimals == Constants::DECIMALS,
            r@.resolution == Constants::RESOLUTION,
            r@.assets == Seq::<AssetView>::empty(),
            r@.records == Map::<u128, i128>::empty(),
            r@.last_timestamp == 0,
    {
        PriceOracle {
            admin: None,
            base_asset: Asset::Other(String::new()),
            decimals: Constants::DECIMALS,
            resolution: Constants::RESOLUTION,
            period: 0,
            max_staleness: None,
            version: 0,
            registry: AssetRegistry::new(),
            ledger: PriceLedger::new(),
        }
    }

    /// Configures the oracle once: its admin, base asset, decimals,
    /// resolution, retention period, staleness bound and initial assets. The
    /// host has authenticated `config.admin` before the call.
    pub fn config(&mut self, config: ConfigData) -> (r: Result<(), Error>)
        requires
            old(self).wf(),
            config.resolution > 0,
            config.decimals <= MAX_DECIMALS,
        ensures
            final(self).wf(),
            match config_error(old(self)@, config.version, views(config.assets@)) {
                Some(e) => r == Err::<(), Error>(e) && final(self)@ == old(self)@,
                None => r == Ok::<(), Error>(()) && final(self)@ == (OracleView {
                    admin: Some(config.admin@),
                    base_asset: config.base_asset@,
                    decimals: config.decimals,
                    resolution: config.resolution,
                    period: config.period,
                    max_staleness: config.max_staleness,
                    version: config.version,
                    assets: old(self)@.assets + views(config.assets@),
                    records: old(self)@.records,
                    last_timestamp: old(self)@.last_timestamp,
                }),
            },
    {
        if self.admin.is_some() {
            return Err(Error::AlreadyInitialized);
        }
        if self.version == u32::MAX || config.version != self.version + 1 {
            return Err(Error::InvalidConfigVersion);
        }
        let ConfigData {
            admin,
            period,
            assets,
            base_asset,
            decimals,
            resolution,
            version,
            max_staleness,
        } = config;
        match self.registry.register_all(&assets) {
            Err(e) => {
                return Err(e);
            },
            Ok(()) => {},
        }
        self.admin = Some(admin);
        self.base_asset = base_asset;
        self.decimals = decimals;
        self.resolution = resolution;
        self.period = period;
        self.max_staleness = max_staleness;
        self.version = version;
        Ok(())
    }

    /// Checks that `invoker` is the configured admin.
    pub fn check_admin(&self, invoker: &String) -> (r: Result<(), Error>)
        ensures
            r == (if is_admin(self@, invoker@) {
                Ok::<(), Error>(())
            } else {
                Err::<(), Error>(Error::Unauthorized)
            }),
    {
        match &self.admin {
            Some(a) => {
                if a.eq(invoker) {
                    Ok(())
                } else {
                    Err(Error::Unauthorized)
                }
            },
            None => Err(Error::Unauthorized),
        }
    }

    /// Checks that `invoker` is the admin and `version` the next one.
    fn check_change(&self, invoker: &String, version: u32) -> (r: Result<(), Error>)
        ensures
            r == (match change_error(self@, invoker@, version) {
                Some(e) => Err::<(), Error>(e),
                None => Ok::<(), Error>(()),
            }),
    {
        if self.check_admin(invoker).is_err() {
            return Err(Error::Unauthorized);
        }
        if self.version == u32::MAX || version != self.version + 1 {
            return Err(Error::InvalidConfigVersion);
        }
        Ok(())
    }

    /// Registers `assets` after the current ones, under the next indexes,
    /// and moves the configuration to `version`. Only the admin may.
    pub fn add_assets(&mut self, invoker: &String, assets: Vec<Asset>, version: u32) -> (r: Result<
        (),
        Error,
    >)
        requires
            old(self).wf(),
        ensures
            final(self).wf(),
            match add_assets_error(old(self)@, invoker@, views(assets@), version) {
                Some(e) => r == Err::<(), Error>(e) && final(self)@ == old(self)@,
                None => r == Ok::<(), Error>(()) && final(self)@ == (OracleView {
                    assets: old(self)@.assets + views(assets@),
                    version,
                    ..old(self)@
                }),
            },
    {
        match self.check_change(invoker, version) {
            Err(e) => {
                return Err(e);
            },
            Ok(()) => {},
        }
        match self.registry.register_all(&assets) {
            Err(e) => {
                return Err(e);
            },
            Ok(()) => {},
        }
        self.version = version;
        Ok(())
    }

    /// Sets the retention period (ms) and moves the configuration to
    /// `version`. Only the admin may.
    pub fn set_period(&mut self, invoker: &String, period: u64, version: u32) -> (r: Result<
        (),
        Error,
    >)
        requires
            old(self).wf(),
        ensures
            final(self).wf(),
            match change_error(old(self)@, invoker@, version) {
                Some(e) => r == Err::<(), Error>(e) && final(self)@ == old(self)@,
                None => r == Ok::<(), Error>(()) && final(self)@ == (OracleView {
                    period,
                    version,
                    ..old(self)@
                }),
            },
    {
        match self.check_change(invoker, version) {
            Err(e) => {
                return Err(e);
            },
            Ok(()) => {},
        }
        self.period = period;
        self.version = version;
        Ok(())
    }
}

/// Every sample has a non-negative price.
proof fn lemma_sample_nonneg(v: OracleView, q: Quote, t: u64)
    requires
        valid_state(v),
    ensures
        match sample(v, q, t) {
            Some(p) => p.price >= 0,
            None => true,
        },
{
    match q {
        Quote::Single(i) => {
            let k = crate::ledger::record_key(i, t);
            if v.records.contains_key(k) {
                assert(v.records[k] > 0);
            }

        },
        Quote::Cross(b, c) => {
            if b == c {
                lemma_pow10_positive(v.decimals as nat);
                lemma_pow10_monotonic(v.decimals as nat, 38);
                lemma_pow10_38();
            } else {
                match (record(v.records, b, t), record(v.records, c, t)) {
                    (Some(x), Some(y)) => {
                        if fixed_div_defined(x as int, y as int, v.decimals as nat) {
                            lemma_fixed_div_range(x as int, y as int, v.decimals as nat);
                        }
                    },
                    _ => {},
                }
            }
        },
    }
}

/// Every record of a walk has a non-negative price.
proof fn lemma_walk_nonneg(v: OracleView, q: Quote, a: u64, count: nat)
    requires
        valid_state(v),
    ensures
        forall|i: int| 0 <= i < walk(v, q, a, count).len() ==> #[trigger] walk(v, q, a, count)[i].price >= 0,
    decreases count,
{
    if count > 0 {
        let t = (a - (count - 1) * v.resolution) as u64;
        lemma_walk_nonneg(v, q, a, (count - 1) as nat);
        lemma_sample_nonneg(v, q, t);
        let earlier = walk(v, q, a, (count - 1) as nat);
        assert forall|i: int| 0 <= i < walk(v, q, a, count).len() implies #[trigger] walk(
            v,
            q,
            a,
            count,
        )[i].price >= 0 by {
            if i < earlier.len() {
                assert(walk(v, q, a, count)[i] == earlier[i]);
            }
        }
    }
}

/// A sum of non-negative prices is non-negative.
proof fn lemma_sum_nonneg(s: Seq<PriceData>)
    requires
        forall|i: int| 0 <= i < s.len() ==> #[trigger] s[i].price >= 0,
    ensures
        sum_prices(s) >= 0,
    decreases s.len(),
{
    if s.len() > 0 {
        let d = s.drop_last();
        assert forall|i: int| 0 <= i < d.len() implies #[trigger] d[i].price >= 0 by {
            assert(d[i] == s[i]);
        }
        lemma_sum_nonneg(d);
    }
}

/// The sum of a prefix of non-negative prices is at most the whole sum.
proof fn lemma_sum_prefix(s: Seq<PriceData>, j: int)
    requires
        0 <= j <= s.len(),
        forall|i: int| 0 <= i < s.len() ==> #[trigger] s[i].price >= 0,
    ensures
        0 <= sum_prices(s.take(j)) <= sum_prices(s),
    decreases s.len(),
{
    if j == s.len() {
        assert(s.take(j) =~= s);
        lemma_sum_nonneg(s);
    } else {
        let d = s.drop_last();
        assert forall|i: int| 0 <= i < d.len() implies #[trigger] d[i].price >= 0 by {
            assert(d[i] == s[i]);
        }
        assert(d.take(j) =~= s.take(j));
        lemma_sum_prefix(d, j);
    }
}

/// The cross price of a registered asset with itself is 10^decimals at any
/// timestamp, whatever the records hold.
pub proof fn lemma_cross_price_identity(v: OracleView, a: AssetView, t: u64, now: u64)
    requires
        valid_state(v),
        v.assets.contains(a),
    ensures
        cross_price_at(v, a, a, t) == Some(
            PriceData { price: pow10(v.decimals as nat) as i128, timestamp: normalize(t, v.resolution as u64) },
        ),
        anchor(v, now) != 0 ==> last_cross_price(v, a, a, now) == Some(
            PriceData { price: pow10(v.decimals as nat) as i128, timestamp: anchor(v, now) },
        ),
{
    lemma_index_of(v.assets, a);
}

/// Queries about an asset that is not registered find nothing.
pub proof fn lemma_unknown_asset_absent(
    v: OracleView,
    a: AssetView,
    other: AssetView,
    t: u64,
    records: u32,
    now: u64,
)
    requires
        valid_state(v),
        !v.assets.contains(a),
    ensures
        price_at(v, a, t) is None,
        last_price(v, a, now) is None,
        prices_of(v, a, records, now) is None,
        twap_of(v, a, records, now) is None,
        cross_price_at(v, a, other, t) is None,
        cross_price_at(v, other, a, t) is None,
        last_cross_price(v, a, other, now) is None,
        last_cross_price(v, other, a, now) is None,
        cross_prices_of(v, a, other, records, now) is None,
        cross_twap_of(v, other, a, records, now) is None,
{
    lemma_index_of(v.assets, a);
}

/// After storing `updates` at `timestamp`, the record of each asset whose
/// price was not zero is that price.
pub proof fn lemma_updates_read_back(
    m: Map<u128, i128>,
    updates: Seq<i128>,
    timestamp: u64,
    period: u64,
    i: int,
)
    requires
        updates.len() <= 256,
        0 <= i < updates.len(),
        updates[i] != 0,
    ensures
        record(apply_updates(m, updates, timestamp, period), i as u8, timestamp) == Some(updates[i]),
    decreases updates.len(),
{
    let n = updates.len() - 1;
    let earlier = updates.drop_last();
    let before = apply_updates(m, earlier, timestamp, period);
    lemma_key_round_trip(timestamp, i as u8);
    if period > 0 && timestamp >= period {
        lemma_key_round_trip((timestamp - period) as u64, n as u8);
        lemma_key_injective(timestamp, i as u8, (timestamp - period) as u64, n as u8);
    }
    if i < n {
        assert(earlier[i] == updates[i]);
        lemma_updates_read_back(m, earlier, timestamp, period, i);
        lemma_key_round_trip(timestamp, n as u8);
        lemma_key_injective(timestamp, i as u8, timestamp, n as u8);
    }
}

/// A successful price update is what `price` then reads: for every
/// registered asset whose submitted price was not zero, `price` at the
/// update's timestamp returns that price.
pub proof fn lemma_set_then_price(
    v: OracleView,
    invoker: Seq<char>,
    updates: Seq<i128>,
    timestamp: u64,
    now: u64,
    i: int,
)
    requires
        valid_state(v),
        updates_error(v, invoker, updates, timestamp, now) is None,
        0 <= i < updates.len(),
        updates[i] != 0,
    ensures
        price_at(
            OracleView { records: apply_updates(v.records, updates, timestamp, v.period), ..v },
            v.assets[i],
            timestamp,
        ) == Some(PriceData { price: updates[i], timestamp }),
{
    lemma_index_of(v.assets, v.assets[i]);
    lemma_updates_read_back(v.records, updates, timestamp, v.period, i);
}

impl PriceOracle {
    /// The admin, once configured.
    pub fn admin(&self) -> (r: Option<String>)
        ensures
            match r {
                Some(a) => self@.admin == Some(a@),
                None => self@.admin is None,
            },
    {
        match &self.admin {
            Some(a) => Some(a.clone()),
            None => None,
        }
    }

    /// The current configuration version.
    pub fn config_version(&self) -> (r: u32)
        ensures
            r == self@.version,
    {
        self.version
    }

    /// The asset prices are quoted in.
    pub fn base(&self) -> (r: Asset)
        ensures
            r@ == self@.base_asset,
    {
        self.base_asset.copy()
    }

    /// Decimal places of quoted prices.
    pub fn decimals(&self) -> (r: u32)
        ensures
            r == self@.decimals,
    {
        self.decimals
    }

    /// Width of a price bucket, in milliseconds.
    pub fn resolution(&self) -> (r: u32)
        ensures
            r == self@.resolution,
    {
        self.resolution
    }

    /// The retention period (ms), when one is set.
    pub fn period(&self) -> (r: Option<u64>)
        ensures
            r == (if self@.period == 0 {
                None::<u64>
            } else {
                Some(self@.period)
            }),
    {
        if self.period == 0 {
            None
        } else {
            Some(self.period)
        }
    }

    /// The quoted assets, in index order.
    pub fn assets(&self) -> (r: &Vec<Asset>)
        ensures
            views(r@) == self@.assets,
    {
        self.registry.all()
    }

    /// The most recent timestamp (ms) at which prices were recorded; 0 when
    /// none were.
    pub fn last_timestamp(&self) -> (r: u64)
        ensures
            r == self@.last_timestamp,
    {
        self.ledger.last_timestamp()
    }

    /// The timestamp the latest-record queries read at, given the ledger
    /// clock `now`.
    fn obtain_record_timestamp(&self, now: u64) -> (r: u64)
        ensures
            r == anchor(self@, now),
    {
        let last = self.ledger.last_timestamp();
        if last == 0 {
            return 0;
        }
        match self.max_staleness {
            None => last,
            Some(d) => {
                if last > now || now - last >= d {
                    0
                } else {
                    last
                }
            },
        }
    }

    /// The indexes of both assets, when both are registered.
    fn get_asset_pair_indexes(&self, base: &Asset, quote: &Asset) -> (r: Option<(u8, u8)>)
        requires
            self.wf(),
        ensures
            r == pair_of(self@, base@, quote@),
    {
        match self.registry.index_of(base) {
            None => None,
            Some(b) => match self.registry.index_of(quote) {
                None => None,
                Some(c) => Some((b, c)),
            },
        }
    }

    /// What `q` samples at `t`.
    fn sample_at(&self, q: Quote, t: u64) -> (r: Option<PriceData>)
        requires
            self.wf(),
        ensures
            r == sample(self@, q, t),
    {
        match q {
            Quote::Single(i) => match self.ledger.get(i, t) {
                Some(p) => Some(PriceData { price: p, timestamp: t }),
                None => None,
            },
            Quote::Cross(b, c) => {
                if b == c {
                    return Some(PriceData { price: pow10_exec(self.decimals), timestamp: t });
                }
                match self.ledger.get(b, t) {
                    None => None,
                    Some(x) => match self.ledger.get(c, t) {
                        None => None,
                        Some(y) => match checked_fixed_div_floor(x, y, self.decimals) {
                            Some(p) => Some(PriceData { price: p, timestamp: t }),
                            None => None,
                        },
                    },
                }
            },
        }
    }

    /// The price of `asset` recorded in the bucket of `timestamp` (ms).
    pub fn price(&self, asset: &Asset, timestamp: u64) -> (r: Option<PriceData>)
        requires
            self.wf(),
        ensures
            r == price_at(self@, asset@, timestamp),
    {
        match self.registry.index_of(asset) {
            None => None,
            Some(i) => {
                let t = get_normalized_timestamp(timestamp, self.resolution as u64);
                self.sample_at(Quote::Single(i), t)
            },
        }
    }

    /// The latest price of `asset`, given the ledger clock `now` (ms).
    pub fn lastprice(&self, asset: &Asset, now: u64) -> (r: Option<PriceData>)
        requires
            self.wf(),
        ensures
            r == last_price(self@, asset@, now),
    {
        let t = self.obtain_record_timestamp(now);
        if t == 0 {
            return None;
        }
        match self.registry.index_of(asset) {
            None => None,
            Some(i) => self.sample_at(Quote::Single(i), t),
        }
    }

    /// The cross price of `base` in `quote` in the bucket of `timestamp`
    /// (ms).
    pub fn x_price(&self, base: &Asset, quote: &Asset, timestamp: u64) -> (r: Option<PriceData>)
        requires
            self.wf(),
        ensures
            r == cross_price_at(self@, base@, quote@, timestamp),
    {
        match self.get_asset_pair_indexes(base, quote) {
            None => None,
            Some((b, c)) => {
                let t = get_normalized_timestamp(timestamp, self.resolution as u64);
                self.sample_at(Quote::Cross(b, c), t)
            },
        }
    }

    /// The latest cross price of `base` in `quote`, given the ledger clock
    /// `now` (ms).
    pub fn x_last_price(&self, base: &Asset, quote: &Asset, now: u64) -> (r: Option<PriceData>)
        requires
            self.wf(),
        ensures
            r == last_cross_price(self@, base@, quote@, now),
    {
        let t = self.obtain_record_timestamp(now);
        if t == 0 {
            return None;
        }
        match self.get_asset_pair_indexes(base, quote) {
            None => None,
            Some((b, c)) => self.sample_at(Quote::Cross(b, c), t),
        }
    }

    /// The series of `q`: walking back from the latest timestamp one bucket
    /// at a time, the samples found in up to `records` buckets.
    fn collect(&self, q: Quote, records: u32, now: u64) -> (r: Option<Vec<PriceData>>)
        requires
            self.wf(),
        ensures
            match r {
                Some(s) => series(self@, q, records, now) == Some(s@),
                None => series(self@, q, records, now) is None,
            },
    {
        let a = self.obtain_record_timestamp(now);
        if a == 0 {
            return None;
        }
        let ghost v = self@;
        let res = self.resolution as u64;
        let cap: u64 = if records > MAX_RECORDS {
            MAX_RECORDS as u64
        } else {
            records as u64
        };
        let count: u64 = if a / res < cap {
            a / res + 1
        } else {
            cap
        };
        assert(count == steps(a, res, records));
        let mut out: Vec<PriceData> = Vec::new();
        let mut k: u64 = 0;
        let mut t: u64 = a;
        while k < count
            invariant
                v == self@,
                self.wf(),
                res == v.resolution as u64,
                res > 0,
                count == steps(a, res, records),
                count <= a / res + 1,
                k <= count,
                k < count ==> t as int == a as int - k * res,
                out@ == walk(v, q, a, k as nat),
            decreases count - k,
        {
            let ghost before = out@;
            let s = self.sample_at(q, t);
            match s {
                Some(p) => {
                    out.push(p);
                },
                None => {},
            }
            assert(out@ == walk(v, q, a, (k + 1) as nat));
            k = k + 1;
            if k < count {
                assert(k * res <= a) by (nonlinear_arith)
                    requires
                        k <= a / res,
                        res > 0,
                ;
                assert(t as int - res == a as int - k * res) by (nonlinear_arith)
                    requires
                        t as int == a as int - (k - 1) * res,
                ;
                t = t - res;
            }
        }
        if out.len() == 0 {
            None
        } else {
            Some(out)
        }
    }

    /// The mean price of the series of `q`.
    fn get_twap(&self, q: Quote, records: u32, now: u64) -> (r: Option<i128>)
        requires
            self.wf(),
        ensures
            r == mean(self@, q, records, now),
    {
        let s = match self.collect(q, records, now) {
            None => {
                return None;
            },
            Some(s) => s,
        };
        if self.max_staleness.is_some() && s.len() != records as usize {
            return None;
        }
        proof {
            let a = anchor(self@, now);
            lemma_walk_nonneg(self@, q, a, steps(a, self@.resolution as u64, records));
        }
        let mut sum: i128 = 0;
        let mut i: usize = 0;
        while i < s.len()
            invariant
                i <= s@.len(),
                series(self@, q, records, now) == Some(s@),
                !(self@.max_staleness is Some && s@.len() != records),
                forall|j: int| 0 <= j < s@.len() ==> #[trigger] s@[j].price >= 0,
                sum == sum_prices(s@.take(i as int)),
            decreases s@.len() - i,
        {
            assert(s@.take(i + 1).drop_last() =~= s@.take(i as int));
            match sum.checked_add(s[i].price) {
                None => {
                    proof {
                        assert(sum_prices(s@.take(i + 1)) == sum + s@[i as int].price);
                        lemma_sum_prefix(s@, i + 1);
                    }
                    return None;
                },
                Some(n) => {
                    sum = n;
                },
            }
            i = i + 1;
        }
        assert(s@.take(s@.len() as int) =~= s@);
        proof {
            lemma_sum_prefix(s@, 0);
        }
        Some(sum / (s.len() as i128))
    }

    /// Up to `records` recent prices of `asset`, most recent first, given
    /// the ledger clock `now` (ms).
    pub fn prices(&self, asset: &Asset, records: u32, now: u64) -> (r: Option<Vec<PriceData>>)
        requires
            self.wf(),
        ensures
            match r {
                Some(s) => prices_of(self@, asset@, records, now) == Some(s@),
                None => prices_of(self@, asset@, records, now) is None,
            },
    {
        match self.registry.index_of(asset) {
            None => None,
            Some(i) => self.collect(Quote::Single(i), records, now),
        }
    }

    /// Up to `records` recent cross prices of `base` in `quote`, most recent
    /// first, given the ledger clock `now` (ms).
    pub fn x_prices(&self, base: &Asset, quote: &Asset, records: u32, now: u64) -> (r: Option<
        Vec<PriceData>,
    >)
        requires
            self.wf(),
        ensures
            match r {
                Some(s) => cross_prices_of(self@, base@, quote@, records, now) == Some(s@),
                None => cross_prices_of(self@, base@, quote@, records, now) is None,
            },
    {
        match self.get_asset_pair_indexes(base, quote) {
            None => None,
            Some((b, c)) => self.collect(Quote::Cross(b, c), records, now),
        }
    }

    /// The time-weighted average price of `asset` over `records` recent
    /// records, given the ledger clock `now` (ms).
    pub fn twap(&self, asset: &Asset, records: u32, now: u64) -> (r: Option<i128>)
        requires
            self.wf(),
        ensures
            r == twap_of(self@, asset@, records, now),
    {
        match self.registry.index_of(asset) {
            None => None,
            Some(i) => self.get_twap(Quote::Single(i), records, now),
        }
    }

    /// The time-weighted average cross price of `base` in `quote` over
    /// `records` recent records, given the ledger clock `now` (ms).
    pub fn x_twap(&self, base: &Asset, quote: &Asset, records: u32, now: u64) -> (r: Option<i128>)
        requires
            self.wf(),
        ensures
            r == cross_twap_of(self@, base@, quote@, records, now),
    {
        match self.get_asset_pair_indexes(base, quote) {
            None => None,
            Some((b, c)) => self.get_twap(Quote::Cross(b, c), records, now),
        }
    }
}

/// Why a price update fails, if it does: a caller other than the admin; not
/// one price per registered asset; a timestamp that is zero, off the
/// resolution grid or ahead of the clock `now`; or a negative price.
pub open spec fn updates_error(
    v: OracleView,
    invoker: Seq<char>,
    updates: Seq<i128>,
    timestamp: u64,
    now: u64,
) -> Option<Error> {
    if !is_admin(v, invoker) {
        Some(Error::Unauthorized)
    } else if updates.len() == 0 || updates.len() != v.assets.len() {
        Some(Error::InvalidUpdateLength)
    } else if timestamp == 0 || timestamp % (v.resolution as u64) != 0 || timestamp > now {
        Some(Error::InvalidTimestamp)
    } else if exists|i: int| 0 <= i < updates.len() && #[trigger] updates[i] < 0 {
        Some(Error::InvalidPriceValue)
    } else {
        None
    }
}

/// The records after storing, at `timestamp`, the price at position `i` of
/// `updates` for asset `i`; a zero price leaves its asset untouched.
pub open spec fn apply_updates(m: Map<u128, i128>, updates: Seq<i128>, timestamp: u64, period: u64) -> Map<
    u128,
    i128,
>
    decreases updates.len(),
{
    if updates.len() == 0 {
        m
    } else {
        let earlier = apply_updates(m, updates.drop_last(), timestamp, period);
        if updates.last() == 0 {
            earlier
        } else {
            put_record(earlier, (updates.len() - 1) as u8, updates.last(), timestamp, period)
        }
    }
}

/// Whether some price of `updates` is negative.
fn has_negative(updates: &Vec<i128>) -> (r: bool)
    ensures
        r == exists|i: int| 0 <= i < updates@.len() && #[trigger] updates@[i] < 0,
{
    let mut j: usize = 0;
    while j < updates.len()
        invariant
            j <= updates@.len(),
            forall|k: int| 0 <= k < j ==> #[trigger] updates@[k] >= 0,
        decreases updates@.len() - j,
    {
        if updates[j] < 0 {
            return true;
        }
        j = j + 1;
    }
    false
}

impl PriceOracle {
    /// Records a price snapshot at `timestamp` (ms): position `i` of
    /// `updates` is the price of asset `i`, and 0 means no update for it.
    /// Only the admin may; `now` is the ledger clock (ms). Either every
    /// price is written or, on an error, nothing is.
    pub fn set_price(&mut self, invoker: &String, updates: Vec<i128>, timestamp: u64, now: u64) -> (r:
        Result<(), Error>)
        requires
            old(self).wf(),
        ensures
            final(self).wf(),
            match updates_error(old(self)@, invoker@, updates@, timestamp, now) {
                Some(e) => r == Err::<(), Error>(e) && final(self)@ == old(self)@,
                None => r == Ok::<(), Error>(()) && final(self)@ == (OracleView {
                    records: apply_updates(
                        old(self)@.records,
                        updates@,
                        timestamp,
                        old(self)@.period,
                    ),
                    last_timestamp: if timestamp > old(self)@.last_timestamp {
                        timestamp
                    } else {
                        old(self)@.last_timestamp
                    },
                    ..old(self)@
                }),
            },
            !is_admin(old(self)@, invoker@) ==> r == Err::<(), Error>(Error::Unauthorized)
                && final(self)@ == old(self)@,
    {
        if self.check_admin(invoker).is_err() {
            return Err(Error::Unauthorized);
        }
        let n = updates.len();
        if n == 0 || n != self.registry.len() {
            return Err(Error::InvalidUpdateLength);
        }
        let res = self.resolution as u64;
        if timestamp == 0 || !is_valid_timestamp(timestamp, res) || timestamp > now {
            return Err(Error::InvalidTimestamp);
        }
        if has_negative(&updates) {
            return Err(Error::InvalidPriceValue);
        }
        let ghost start = self.ledger.records();
        let period = self.period;
        let mut i: usize = 0;
        while i < n
            invariant
                n == updates@.len(),
                n <= 256,
                i <= n,
                forall|k: int| 0 <= k < n ==> #[trigger] updates@[k] >= 0,
                self.ledger.wf(),
                self.ledger.last() == old(self).ledger.last(),
                self.ledger.records() == apply_updates(start, updates@.take(i as int), timestamp, period),
                start == old(self)@.records,
                period == old(self)@.period,
                self.admin == old(self).admin,
                self.base_asset == old(self).base_asset,
                self.decimals == old(self).decimals,
                self.resolution == old(self).resolution,
                self.period == old(self).period,
                self.max_staleness == old(self).max_staleness,
                self.version == old(self).version,
                self.registry == old(self).registry,
            decreases n - i,
        {
            assert(updates@.take(i + 1).drop_last() =~= updates@.take(i as int));
            let price = updates[i];
            if price != 0 {
                self.ledger.put(i as u8, price, timestamp, period);
            }
            i = i + 1;
        }
        assert(updates@.take(n as int) =~= updates@);
        self.ledger.touch(timestamp);
        Ok(())
    }
}

/// The whole state of an oracle as plain values, for a host to store
/// between calls. Records are (storage key, price) entries.
#[derive(Debug)]
pub struct OracleSnapshot {
    pub admin: Option<String>,
    pub base_asset: Asset,
    pub decimals: u32,
    pub resolution: u32,
    pub period: u64,
    pub max_staleness: Option<u64>,
    pub version: u32,
    pub assets: Vec<Asset>,
    pub records: Vec<(u128, i128)>,
    pub last_timestamp: u64,
}

/// The oracle state a snapshot describes.
pub open spec fn snapshot_view(s: OracleSnapshot) -> OracleView {
    OracleView {
        admin: match s.admin {
            Some(a) => Some(a@),
            None => None,
        },
        base_asset: s.base_asset@,
        decimals: s.decimals,
        resolution: s.resolution,
        period: s.period,
        max_staleness: s.max_staleness,
        version: s.version,
        assets: views(s.assets@),
        records: entries_map(s.records@),
        last_timestamp: s.last_timestamp,
    }
}

/// Whether a snapshot describes a state an oracle can be in.
pub open spec fn restorable(s: OracleSnapshot) -> bool {
    &&& s.resolution > 0
    &&& s.decimals <= MAX_DECIMALS
    &&& batch_error(Seq::empty(), views(s.assets@)) is None
    &&& forall|i: int| 0 <= i < s.records@.len() ==> #[trigger] s.records@[i].1 > 0
}

impl PriceOracle {
    /// The whole state as plain values.
    pub fn snapshot(&self) -> (r: OracleSnapshot)
        requires
            self.wf(),
        ensures
            snapshot_view(r) == self@,
            restorable(r),
    {
        let admin = match &self.admin {
            Some(a) => Some(a.clone()),
            None => None,
        };
        let assets = copy_assets(self.registry.all());
        proof {
            assert(Seq::<AssetView>::empty() + views(assets@) =~= views(assets@));
        }
        let r = OracleSnapshot {
            admin,
            base_asset: self.base_asset.copy(),
            decimals: self.decimals,
            resolution: self.resolution,
            period: self.period,
            max_staleness: self.max_staleness,
            version: self.version,
            assets,
            records: self.ledger.entries(),
            last_timestamp: self.ledger.last_timestamp(),
        };
        assert(snapshot_view(r) == self@);
        r
    }

    /// The oracle a snapshot describes; `None` when it describes no state
    /// an oracle can be in.
    pub fn restore(s: OracleSnapshot) -> (r: Option<PriceOracle>)
        ensures
            match r {
                Some(o) => o.wf() && o@ == snapshot_view(s),
                None => !restorable(s),
            },
    {
        if s.resolution == 0 || s.decimals > MAX_DECIMALS {
            return None;
        }
        let mut registry = AssetRegistry::new();
        match registry.register_all(&s.assets) {
            Err(_) => {
                return None;
            },
            Ok(()) => {},
        }
        assert(registry@ =~= views(s.assets@));
        let ledger = match PriceLedger::restore(&s.records, s.last_timestamp) {
            None => {
                return None;
            },
            Some(l) => l,
        };
        let ghost sv = snapshot_view(s);
        let OracleSnapshot {
            admin,
            base_asset,
            decimals,
            resolution,
            period,
            max_staleness,
            version,
            assets: _,
            records: _,
            last_timestamp: _,
        } = s;
        let o = PriceOracle {
            admin,
            base_asset,
            decimals,
            resolution,
            period,
            max_staleness,
            version,
            registry,
            ledger,
        };
        assert(o@ == sv);
        Some(o)
    }
}

} // verus!
