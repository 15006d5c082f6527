use price_oracle::asset::Asset;
use price_oracle::error::Error;
use price_oracle::oracle::{ConfigData, Constants, PriceData, PriceOracle};

const RESOLUTION: u32 = 300_000;
const DECIMALS: u32 = 14;
const NOW: u64 = 900_000;

fn admin() -> String {
    "GADMINXXXXXXXXXXXXXXXXXXXXXXXXXXXXXXXXXXXXXXXXXXXXXXXXXX".to_string()
}

fn convert_to_seconds(timestamp: u64) -> u64 {
    timestamp / 1000
}

fn normalize_price(price: i128) -> i128 {
    price * 10i128.pow(DECIMALS)
}

fn generate_assets(count: usize, start_index: u32) -> Vec<Asset> {
    let mut assets = Vec::new();
    for i in 0..count {
        if i % 2 == 0 {
            assets.push(Asset::Stellar(format!("GACCOUNT{}", start_index + i as u32)));
        } else {
            assets.push(Asset::Other(format!("ASSET_{}", start_index + i as u32)));
        }
    }
    assets
}

fn get_updates(assets: &[Asset], price: i128) -> Vec<i128> {
    assets.iter().map(|_| price).collect()
}

fn init_contract_with_admin() -> (PriceOracle, ConfigData) {
    let mut oracle = PriceOracle::new();
    let init_data = ConfigData {
        admin: admin(),
        period: (100 * RESOLUTION).into(),
        assets: generate_assets(10, 0),
        base_asset: Asset::Stellar("GBASE".to_string()),
        decimals: DECIMALS,
        resolution: RESOLUTION,
        version: 1,
        max_staleness: Some(2 * RESOLUTION as u64),
    };
    let copy = ConfigData {
        admin: init_data.admin.clone(),
        period: init_data.period,
        assets: init_data.assets.clone(),
        base_asset: init_data.base_asset.clone(),
        decimals: init_data.decimals,
        resolution: init_data.resolution,
        version: init_data.version,
        max_staleness: init_data.max_staleness,
    };
    assert_eq!(oracle.config(copy), Ok(()));
    (oracle, init_data)
}

fn set_prices(oracle: &mut PriceOracle, assets: &[Asset], price: i128, timestamp: u64) {
    let updates = get_updates(assets, normalize_price(price));
    assert_eq!(oracle.set_price(&admin(), updates, timestamp, NOW), Ok(()));
}

#[test]
fn init_test() {
    let (oracle, init_data) = init_contract_with_admin();

    assert_eq!(oracle.admin(), Some(init_data.admin.clone()));
    assert_eq!(oracle.base(), init_data.base_asset);
    assert_eq!(oracle.resolution(), RESOLUTION);
    assert_eq!(oracle.period(), Some(init_data.period));
    assert_eq!(oracle.decimals(), DECIMALS);
    assert_eq!(oracle.assets(), &init_data.assets);
    assert_eq!(oracle.config_version(), 1);
}

#[test]
fn new_oracle_defaults() {
    let oracle = PriceOracle::new();
    assert_eq!(oracle.admin(), None);
    assert_eq!(oracle.decimals(), Constants::DECIMALS);
    assert_eq!(oracle.resolution(), Constants::RESOLUTION);
    assert_eq!(oracle.period(), None);
    assert_eq!(oracle.config_version(), 0);
    assert!(oracle.assets().is_empty());
    assert_eq!(oracle.last_timestamp(), 0);
}

#[test]
fn config_twice_is_rejected() {
    let (mut oracle, init_data) = init_contract_with_admin();
    let again = ConfigData {
        admin: "GOTHER".to_string(),
        period: 0,
        assets: Vec::new(),
        base_asset: init_data.base_asset.clone(),
        decimals: 7,
        resolution: 60_000,
        version: 2,
        max_staleness: None,
    };
    assert_eq!(oracle.config(again), Err(Error::AlreadyInitialized));
    assert_eq!(oracle.admin(), Some(admin()));
    assert_eq!(oracle.decimals(), DECIMALS);
}

#[test]
fn config_version_test() {
    let (oracle, _) = init_contract_with_admin();
    assert_eq!(oracle.config_version(), 1);

    let mut fresh = PriceOracle::new();
    let config = ConfigData {
        admin: admin(),
        period: 0,
        assets: Vec::new(),
        base_asset: Asset::Other("USD".to_string()),
        decimals: DECIMALS,
        resolution: RESOLUTION,
        version: 2,
        max_staleness: None,
    };
    assert_eq!(fresh.config(config), Err(Error::InvalidConfigVersion));
    assert_eq!(fresh.admin(), None);
}

#[test]
fn config_with_duplicate_assets_is_rejected() {
    let mut oracle = PriceOracle::new();
    let dup = Asset::Other("ASSET_DUPLICATE".to_string());
    let config = ConfigData {
        admin: admin(),
        period: 0,
        assets: vec![dup.clone(), dup],
        base_asset: Asset::Other("USD".to_string()),
        decimals: DECIMALS,
        resolution: RESOLUTION,
        version: 1,
        max_staleness: None,
    };
    assert_eq!(oracle.config(config), Err(Error::AssetAlreadyPresented));
    assert_eq!(oracle.admin(), None);
    assert!(oracle.assets().is_empty());
}

#[test]
fn set_price_test() {
    let (mut oracle, init_data) = init_contract_with_admin();
    let updates = get_updates(&init_data.assets, normalize_price(100));
    assert_eq!(oracle.set_price(&admin(), updates, 600_000, NOW), Ok(()));
    assert_eq!(oracle.last_timestamp(), 600_000);
}

#[test]
fn set_price_zero_timestamp_test() {
    let (mut oracle, init_data) = init_contract_with_admin();
    let updates = get_updates(&init_data.assets, normalize_price(100));
    assert_eq!(oracle.set_price(&admin(), updates, 0, NOW), Err(Error::InvalidTimestamp));
}

#[test]
fn set_price_invalid_timestamp_test() {
    let (mut oracle, init_data) = init_contract_with_admin();
    let updates = get_updates(&init_data.assets, normalize_price(100));
    assert_eq!(oracle.set_price(&admin(), updates, 600_001, NOW), Err(Error::InvalidTimestamp));
}

#[test]
fn set_price_future_timestamp_test() {
    let (mut oracle, init_data) = init_contract_with_admin();
    let updates = get_updates(&init_data.assets, normalize_price(100));
    assert_eq!(oracle.set_price(&admin(), updates, 1_200_000, NOW), Err(Error::InvalidTimestamp));
    assert_eq!(oracle.last_timestamp(), 0);
}

#[test]
fn set_price_negative_price_is_rejected() {
    let (mut oracle, init_data) = init_contract_with_admin();
    let mut updates = get_updates(&init_data.assets, normalize_price(100));
    updates[3] = -1;
    assert_eq!(oracle.set_price(&admin(), updates, 600_000, NOW), Err(Error::InvalidPriceValue));
    assert_eq!(oracle.price(&init_data.assets[0], 600_000), None);
    assert_eq!(oracle.last_timestamp(), 0);
}

#[test]
fn prices_update_overflow_test() {
    let (mut oracle, _) = init_contract_with_admin();
    let mut updates = Vec::new();
    for i in 1..=256 {
        updates.push(normalize_price(i as i128 + 1));
    }
    assert_eq!(oracle.set_price(&admin(), updates, 600_000, NOW), Err(Error::InvalidUpdateLength));
    assert_eq!(oracle.set_price(&admin(), Vec::new(), 600_000, NOW), Err(Error::InvalidUpdateLength));
}

#[test]
fn last_price_test() {
    let (mut oracle, init_data) = init_contract_with_admin();
    let assets = init_data.assets;
    set_prices(&mut oracle, &assets, 100, 600_000);
    set_prices(&mut oracle, &assets, 200, 900_000);

    let result = oracle.lastprice(&assets[1], NOW);
    assert_ne!(result, None);
    assert_eq!(
        result,
        Some(PriceData {
            price: normalize_price(200),
            timestamp: 900_000
        })
    );
}

#[test]
fn last_timestamp_test() {
    let (mut oracle, init_data) = init_contract_with_admin();
    assert_eq!(oracle.last_timestamp(), 0);
    set_prices(&mut oracle, &init_data.assets, 100, 600_000);
    assert_eq!(oracle.last_timestamp(), 600_000);
    assert_eq!(convert_to_seconds(oracle.last_timestamp()), 600);
}

#[test]
fn add_assets_test() {
    let (mut oracle, init_data) = init_contract_with_admin();
    let assets = generate_assets(10, init_data.assets.len() as u32 - 1);
    let version = oracle.config_version() + 1;
    assert_eq!(oracle.add_assets(&admin(), assets.clone(), version), Ok(()));

    let mut expected_assets = init_data.assets.clone();
    for asset in assets.iter() {
        expected_assets.push(asset.clone());
    }
    assert_eq!(oracle.assets(), &expected_assets);
    assert_eq!(oracle.config_version(), 2);
}

#[test]
fn add_assets_duplicate_test() {
    let (mut oracle, init_data) = init_contract_with_admin();
    let duplicate_asset = Asset::Other("ASSET_DUPLICATE".to_string());
    let assets = vec![duplicate_asset.clone(), duplicate_asset];
    assert_eq!(oracle.add_assets(&admin(), assets, 2), Err(Error::AssetAlreadyPresented));
    assert_eq!(oracle.assets(), &init_data.assets);
    assert_eq!(oracle.config_version(), 1);

    let existing = vec![init_data.assets[4].clone()];
    assert_eq!(oracle.add_assets(&admin(), existing, 2), Err(Error::AssetAlreadyPresented));
}

#[test]
fn add_assets_stale_version_is_rejected() {
    let (mut oracle, init_data) = init_contract_with_admin();
    let assets = generate_assets(2, 100);
    assert_eq!(oracle.add_assets(&admin(), assets.clone(), 1), Err(Error::InvalidConfigVersion));
    assert_eq!(oracle.add_assets(&admin(), assets, 3), Err(Error::InvalidConfigVersion));
    assert_eq!(oracle.assets(), &init_data.assets);
}

#[test]
fn assets_update_overflow_test() {
    let (mut oracle, init_data) = init_contract_with_admin();
    let mut assets = Vec::new();
    for i in 1..=256 {
        assets.push(Asset::Other(format!("Asset{}", i)));
    }
    assert_eq!(oracle.add_assets(&admin(), assets, 2), Err(Error::AssetLimitExceeded));
    assert_eq!(oracle.assets(), &init_data.assets);

    // Exactly filling the registry is accepted; one more is not.
    let mut fill = Vec::new();
    for i in 0..(256 - init_data.assets.len()) {
        fill.push(Asset::Other(format!("Fill{}", i)));
    }
    assert_eq!(oracle.add_assets(&admin(), fill, 2), Ok(()));
    assert_eq!(oracle.assets().len(), 256);
    let one_more = vec![Asset::Other("Extra".to_string())];
    assert_eq!(oracle.add_assets(&admin(), one_more, 3), Err(Error::AssetLimitExceeded));
}

#[test]
fn registered_indexes_follow_order() {
    let (mut oracle, init_data) = init_contract_with_admin();
    let assets = init_data.assets;
    let updates: Vec<i128> = (0..assets.len()).map(|i| normalize_price(i as i128 + 1)).collect();
    assert_eq!(oracle.set_price(&admin(), updates, 600_000, NOW), Ok(()));
    for (i, asset) in assets.iter().enumerate() {
        assert_eq!(
            oracle.price(asset, 600_000),
            Some(PriceData {
                price: normalize_price(i as i128 + 1),
                timestamp: 600_000
            })
        );
    }
}

#[test]
fn set_period_test() {
    let (mut oracle, _) = init_contract_with_admin();
    let period = 100_000;
    assert_eq!(oracle.set_period(&admin(), period, 2), Ok(()));
    assert_eq!(oracle.period(), Some(period));
    assert_eq!(oracle.config_version(), 2);
}

#[test]
fn get_price_test() {
    let (mut oracle, init_data) = init_contract_with_admin();
    let assets = init_data.assets;
    set_prices(&mut oracle, &assets, 100, 600_000);
    set_prices(&mut oracle, &assets, 200, 900_000);

    let mut result = oracle.lastprice(&assets[1], NOW);
    assert_ne!(result, None);
    assert_eq!(
        result,
        Some(PriceData {
            price: normalize_price(200),
            timestamp: 900_000
        })
    );

    result = oracle.price(&assets[1], 899_000);
    assert_ne!(result, None);
    assert_eq!(
        result,
        Some(PriceData {
            price: normalize_price(100),
            timestamp: 600_000
        })
    );
}

#[test]
fn get_lastprice_delayed_update_test() {
    let (mut oracle, init_data) = init_contract_with_admin();
    let assets = init_data.assets;
    set_prices(&mut oracle, &assets, 100, 300_000);
    let result = oracle.lastprice(&assets[1], NOW);
    assert_eq!(result, None);
}

#[test]
fn lastprice_without_staleness_bound_uses_last_record() {
    let mut oracle = PriceOracle::new();
    let assets = generate_assets(2, 0);
    let config = ConfigData {
        admin: admin(),
        period: 0,
        assets: assets.clone(),
        base_asset: Asset::Other("USD".to_string()),
        decimals: DECIMALS,
        resolution: RESOLUTION,
        version: 1,
        max_staleness: None,
    };
    assert_eq!(oracle.config(config), Ok(()));
    set_prices(&mut oracle, &assets, 100, 300_000);
    assert_eq!(
        oracle.lastprice(&assets[1], 10 * NOW),
        Some(PriceData {
            price: normalize_price(100),
            timestamp: 300_000
        })
    );
}

#[test]
fn lastprice_before_last_timestamp_is_absent() {
    let (mut oracle, init_data) = init_contract_with_admin();
    set_prices(&mut oracle, &init_data.assets, 100, 900_000);
    assert_eq!(oracle.lastprice(&init_data.assets[0], 600_000), None);
}

#[test]
fn get_x_last_price_test() {
    let (mut oracle, init_data) = init_contract_with_admin();
    let assets = init_data.assets;
    set_prices(&mut oracle, &assets, 100, 600_000);

    let result = oracle.x_last_price(&assets[1], &assets[2], NOW);
    assert_ne!(result, None);
    assert_eq!(
        result,
        Some(PriceData {
            price: normalize_price(1),
            timestamp: 600_000
        })
    );
}

#[test]
fn get_x_price_with_zero_test() {
    let (mut oracle, init_data) = init_contract_with_admin();
    let assets = init_data.assets;
    let mut updates = get_updates(&assets, normalize_price(100));
    updates[1] = 0;
    assert_eq!(oracle.set_price(&admin(), updates, 600_000, NOW), Ok(()));

    let result = oracle.x_price(&assets[0], &assets[1], 600_000);
    assert_eq!(result, None);
}

#[test]
fn get_x_price_test() {
    let (mut oracle, init_data) = init_contract_with_admin();
    let assets = init_data.assets;
    set_prices(&mut oracle, &assets, 100, 600_000);
    set_prices(&mut oracle, &assets, 200, 900_000);

    let mut result = oracle.x_last_price(&assets[1], &assets[2], NOW);
    assert_ne!(result, None);
    assert_eq!(
        result,
        Some(PriceData {
            price: normalize_price(1),
            timestamp: 900_000
        })
    );

    result = oracle.x_price(&assets[1], &assets[2], 899_000);
    assert_ne!(result, None);
    assert_eq!(
        result,
        Some(PriceData {
            price: normalize_price(1),
            timestamp: 600_000
        })
    );
}

#[test]
fn x_price_same_asset_is_one() {
    let (oracle, init_data) = init_contract_with_admin();
    // No record at all: the identity needs none.
    assert_eq!(
        oracle.x_price(&init_data.assets[3], &init_data.assets[3], 123_456_789),
        Some(PriceData {
            price: 10i128.pow(DECIMALS),
            timestamp: 123_300_000
        })
    );
}

#[test]
fn x_price_half() {
    let (mut oracle, init_data) = init_contract_with_admin();
    let assets = init_data.assets;
    let mut updates = get_updates(&assets, normalize_price(100));
    updates[2] = normalize_price(200);
    assert_eq!(oracle.set_price(&admin(), updates, 600_000, NOW), Ok(()));
    assert_eq!(
        oracle.x_price(&assets[1], &assets[2], 600_000),
        Some(PriceData {
            price: 50_000_000_000_000,
            timestamp: 600_000
        })
    );
    assert_eq!(
        oracle.x_price(&assets[2], &assets[1], 600_000),
        Some(PriceData {
            price: normalize_price(2),
            timestamp: 600_000
        })
    );
}

#[test]
fn prices_walks_back_from_latest() {
    let (mut oracle, init_data) = init_contract_with_admin();
    let assets = init_data.assets;
    set_prices(&mut oracle, &assets, 100, 300_000);
    set_prices(&mut oracle, &assets, 200, 900_000);

    let result = oracle.prices(&assets[1], 5, NOW);
    assert_eq!(
        result,
        Some(vec![
            PriceData {
                price: normalize_price(200),
                timestamp: 900_000
            },
            PriceData {
                price: normalize_price(100),
                timestamp: 300_000
            },
        ])
    );
    assert_eq!(oracle.prices(&assets[1], 0, NOW), None);
    assert_eq!(
        oracle.prices(&assets[1], 1, NOW),
        Some(vec![PriceData {
            price: normalize_price(200),
            timestamp: 900_000
        }])
    );
}

#[test]
fn x_prices_walks_back_from_latest() {
    let (mut oracle, init_data) = init_contract_with_admin();
    let assets = init_data.assets;
    set_prices(&mut oracle, &assets, 100, 600_000);
    set_prices(&mut oracle, &assets, 200, 900_000);

    let result = oracle.x_prices(&assets[1], &assets[2], 3, NOW);
    assert_eq!(
        result,
        Some(vec![
            PriceData {
                price: normalize_price(1),
                timestamp: 900_000
            },
            PriceData {
                price: normalize_price(1),
                timestamp: 600_000
            },
        ])
    );
}

#[test]
fn twap_test() {
    let (mut oracle, init_data) = init_contract_with_admin();
    let assets = init_data.assets;
    set_prices(&mut oracle, &assets, 100, 600_000);
    set_prices(&mut oracle, &assets, 200, 900_000);

    let result = oracle.twap(&assets[1], 2, NOW);
    assert_ne!(result, None);
    assert_eq!(result.unwrap(), normalize_price(150));
}

#[test]
fn x_twap_test() {
    let (mut oracle, init_data) = init_contract_with_admin();
    let assets = init_data.assets;
    set_prices(&mut oracle, &assets, 100, 600_000);
    set_prices(&mut oracle, &assets, 200, 900_000);

    let result = oracle.x_twap(&assets[1], &assets[2], 2, NOW);
    assert_ne!(result, None);
    assert_eq!(result.unwrap(), normalize_price(1));
}

#[test]
fn x_twap_half_ratio() {
    let (mut oracle, init_data) = init_contract_with_admin();
    let assets = init_data.assets;
    for timestamp in [600_000, 900_000] {
        let mut updates = get_updates(&assets, normalize_price(100));
        updates[2] = normalize_price(200);
        assert_eq!(oracle.set_price(&admin(), updates, timestamp, NOW), Ok(()));
    }
    assert_eq!(oracle.x_twap(&assets[1], &assets[2], 2, NOW), Some(50_000_000_000_000));
}

#[test]
fn x_twap_with_gap_test() {
    let (mut oracle, init_data) = init_contract_with_admin();
    let assets = init_data.assets;
    set_prices(&mut oracle, &assets, 100, 300_000);
    set_prices(&mut oracle, &assets, 200, 900_000);

    let result = oracle.x_twap(&assets[1], &assets[2], 3, NOW);
    assert_eq!(result, None);
}

#[test]
fn twap_without_staleness_bound_averages_what_is_found() {
    let mut oracle = PriceOracle::new();
    let assets = generate_assets(2, 0);
    let config = ConfigData {
        admin: admin(),
        period: 0,
        assets: assets.clone(),
        base_asset: Asset::Other("USD".to_string()),
        decimals: DECIMALS,
        resolution: RESOLUTION,
        version: 1,
        max_staleness: None,
    };
    assert_eq!(oracle.config(config), Ok(()));
    set_prices(&mut oracle, &assets, 100, 300_000);
    set_prices(&mut oracle, &assets, 201, 900_000);
    assert_eq!(oracle.twap(&assets[0], 3, NOW), Some(normalize_price(301) / 2));
}

#[test]
fn twap_sum_overflow_is_absent() {
    let mut oracle = PriceOracle::new();
    let assets = generate_assets(1, 0);
    let config = ConfigData {
        admin: admin(),
        period: 0,
        assets: assets.clone(),
        base_asset: Asset::Other("USD".to_string()),
        decimals: DECIMALS,
        resolution: RESOLUTION,
        version: 1,
        max_staleness: None,
    };
    assert_eq!(oracle.config(config), Ok(()));
    assert_eq!(oracle.set_price(&admin(), vec![i128::MAX], 600_000, NOW), Ok(()));
    assert_eq!(oracle.set_price(&admin(), vec![i128::MAX], 900_000, NOW), Ok(()));
    assert_eq!(oracle.twap(&assets[0], 1, NOW), Some(i128::MAX));
    assert_eq!(oracle.twap(&assets[0], 2, NOW), None);
}

#[test]
fn retention_drops_record_one_period_older() {
    let (mut oracle, init_data) = init_contract_with_admin();
    let assets = init_data.assets;
    assert_eq!(oracle.set_period(&admin(), 600_000, 2), Ok(()));
    set_prices(&mut oracle, &assets, 100, 300_000);
    set_prices(&mut oracle, &assets, 150, 600_000);
    assert!(oracle.price(&assets[0], 300_000).is_some());
    set_prices(&mut oracle, &assets, 200, 900_000);
    assert_eq!(oracle.price(&assets[0], 300_000), None);
    assert!(oracle.price(&assets[0], 600_000).is_some());
}

#[test]
fn get_non_registered_asset_price_test() {
    let (mut oracle, config_data) = init_contract_with_admin();
    set_prices(&mut oracle, &config_data.assets, 100, 900_000);

    let mut result = oracle.lastprice(&Asset::Stellar("GUNKNOWN".to_string()), NOW);
    assert_eq!(result, None);

    result = oracle.lastprice(&Asset::Other("NonRegisteredAsset".to_string()), NOW);
    assert_eq!(result, None);

    result = oracle.x_last_price(
        &Asset::Stellar("GUNKNOWN".to_string()),
        &config_data.assets[1],
        NOW,
    );
    assert_eq!(result, None);

    result = oracle.x_last_price(
        &config_data.assets[1],
        &Asset::Stellar("GUNKNOWN".to_string()),
        NOW,
    );
    assert_eq!(result, None);

    result = oracle.x_last_price(
        &Asset::Stellar("GUNKNOWN".to_string()),
        &Asset::Other("NonRegisteredAsset".to_string()),
        NOW,
    );
    assert_eq!(result, None);

    // Same text, other kind: a different asset.
    assert_eq!(oracle.lastprice(&Asset::Stellar("ASSET_1".to_string()), NOW), None);
    assert_eq!(oracle.twap(&Asset::Other("NonRegisteredAsset".to_string()), 1, NOW), None);
    assert_eq!(oracle.prices(&Asset::Other("NonRegisteredAsset".to_string()), 1, NOW), None);
}

#[test]
fn get_asset_price_for_invalid_timestamp_test() {
    let (mut oracle, config_data) = init_contract_with_admin();
    set_prices(&mut oracle, &config_data.assets, 100, 900_000);

    let mut result = oracle.price(&config_data.assets[1], u64::MAX);
    assert_eq!(result, None);

    result = oracle.x_price(&config_data.assets[1], &config_data.assets[2], u64::MAX);
    assert_eq!(result, None);

    result = oracle.lastprice(&Asset::Stellar("GUNKNOWN".to_string()), NOW);
    assert_eq!(result, None);
}

#[test]
fn authorized_test() {
    let (mut oracle, _) = init_contract_with_admin();
    assert_eq!(oracle.set_period(&admin(), 100, 2), Ok(()));
}

#[test]
fn unauthorized_test() {
    let (mut oracle, _) = init_contract_with_admin();
    let account = "GSTRANGER".to_string();
    assert_eq!(oracle.set_period(&account, 100, 2), Err(Error::Unauthorized));
    assert_eq!(oracle.period(), Some((100 * RESOLUTION).into()));
    assert_eq!(oracle.config_version(), 1);
}

#[test]
fn unauthorized_set_price_writes_nothing() {
    let (mut oracle, init_data) = init_contract_with_admin();
    let updates = get_updates(&init_data.assets, normalize_price(100));
    let account = "GSTRANGER".to_string();
    assert_eq!(oracle.set_price(&account, updates, 600_000, NOW), Err(Error::Unauthorized));
    assert_eq!(oracle.last_timestamp(), 0);
    for asset in init_data.assets.iter() {
        assert_eq!(oracle.price(asset, 600_000), None);
    }
    assert_eq!(oracle.add_assets(&account, generate_assets(1, 50), 2), Err(Error::Unauthorized));
}

#[test]
fn unconfigured_oracle_rejects_changes() {
    let mut oracle = PriceOracle::new();
    assert_eq!(oracle.set_price(&admin(), vec![1], 600_000, NOW), Err(Error::Unauthorized));
    assert_eq!(oracle.set_period(&admin(), 1, 1), Err(Error::Unauthorized));
}

#[test]
fn snapshot_restore_round_trip() {
    let (mut oracle, init_data) = init_contract_with_admin();
    let assets = init_data.assets;
    set_prices(&mut oracle, &assets, 100, 600_000);
    set_prices(&mut oracle, &assets, 200, 900_000);

    let snapshot = oracle.snapshot();
    assert_eq!(snapshot.records.len(), 2 * assets.len());
    let restored = PriceOracle::restore(snapshot).unwrap();
    assert_eq!(restored.assets(), &assets);
    assert_eq!(restored.admin(), Some(admin()));
    assert_eq!(restored.last_timestamp(), 900_000);
    assert_eq!(restored.config_version(), 1);
    assert_eq!(restored.twap(&assets[1], 2, NOW), Some(normalize_price(150)));
    assert_eq!(
        restored.price(&assets[4], 600_000),
        Some(PriceData {
            price: normalize_price(100),
            timestamp: 600_000
        })
    );
}

#[test]
fn restore_rejects_invalid_snapshots() {
    let (oracle, _) = init_contract_with_admin();
    let mut bad_price = oracle.snapshot();
    bad_price.records.push((1, 0));
    assert!(PriceOracle::restore(bad_price).is_none());

    let mut dup = oracle.snapshot();
    let first = dup.assets[0].clone();
    dup.assets.push(first);
    assert!(PriceOracle::restore(dup).is_none());

    let mut zero_resolution = oracle.snapshot();
    zero_resolution.resolution = 0;
    assert!(PriceOracle::restore(zero_resolution).is_none());

    let mut wide = oracle.snapshot();
    wide.decimals = 39;
    assert!(PriceOracle::restore(wide).is_none());
}

#[test]
fn check_admin_accepts_only_admin() {
    let (oracle, _) = init_contract_with_admin();
    assert_eq!(oracle.check_admin(&admin()), Ok(()));
    assert_eq!(oracle.check_admin(&"GSTRANGER".to_string()), Err(Error::Unauthorized));
    assert_eq!(PriceOracle::new().check_admin(&admin()), Err(Error::Unauthorized));
}

#[test]
fn duplicate_reported_before_limit() {
    let (mut oracle, init_data) = init_contract_with_admin();
    let mut fill = Vec::new();
    for i in 0..(255 - init_data.assets.len()) {
        fill.push(Asset::Other(format!("Fill{}", i)));
    }
    assert_eq!(oracle.add_assets(&admin(), fill, 2), Ok(()));
    assert_eq!(oracle.assets().len(), 255);

    // Duplicate inside the batch, which would also pass the limit.
    let f1 = Asset::Other("F1".to_string());
    let batch = vec![f1.clone(), Asset::Other("F2".to_string()), f1];
    assert_eq!(oracle.add_assets(&admin(), batch, 3), Err(Error::AssetAlreadyPresented));
    assert_eq!(oracle.assets().len(), 255);

    assert_eq!(oracle.add_assets(&admin(), vec![Asset::Other("Last".to_string())], 3), Ok(()));
    assert_eq!(oracle.assets().len(), 256);

    // Full registry: an already registered asset is still reported as such.
    let batch = vec![Asset::Other("Fresh".to_string()), init_data.assets[1].clone()];
    assert_eq!(oracle.add_assets(&admin(), batch, 4), Err(Error::AssetAlreadyPresented));
    let batch = vec![Asset::Other("Fresh".to_string())];
    assert_eq!(oracle.add_assets(&admin(), batch, 4), Err(Error::AssetLimitExceeded));
    assert_eq!(oracle.assets().len(), 256);
    assert_eq!(oracle.config_version(), 3);
}
