use tellus::oracle::{Error, OracleContract, ReadingType, DEFAULT_MAX_HISTORY_SIZE};

fn addr(name: &str) -> String {
    name.to_string()
}

fn s(text: &str) -> String {
    text.to_string()
}

const SIGNATURE: [u8; 64] = [0u8; 64];

fn oracle_with_nodes(nodes: &[&str]) -> OracleContract {
    let mut oracle = OracleContract::new();
    oracle.initialize(addr("admin"), 172800).unwrap();
    for node in nodes {
        oracle.add_oracle_node(addr("admin"), addr(node)).unwrap();
    }
    oracle
}

#[test]
fn test_oracle_initialization() {
    let mut oracle = OracleContract::new();
    oracle.initialize(addr("admin"), 172800).unwrap(); // 48 hours

    assert!(oracle.is_whitelisted(addr("admin")));
}

#[test]
fn test_oracle_whitelist_management() {
    let mut oracle = OracleContract::new();
    oracle.initialize(addr("admin"), 172800).unwrap();

    oracle.add_oracle_node(addr("admin"), addr("node")).unwrap();
    assert!(oracle.is_whitelisted(addr("node")));

    oracle.remove_oracle_node(addr("admin"), addr("node")).unwrap();
    assert!(!oracle.is_whitelisted(addr("node")));
}

#[test]
fn test_oracle_submit_reading() {
    let now = 1000000;
    let mut oracle = oracle_with_nodes(&["node"]);

    oracle
        .submit_reading(addr("node"), s("9q5ct"), ReadingType::Rainfall, 250, 1000000, SIGNATURE, now)
        .unwrap();
}

#[test]
fn test_oracle_aggregation_median() {
    let now = 1000000;
    let mut oracle = oracle_with_nodes(&["oracle1", "oracle2", "oracle3"]);
    let geo_cell = s("9q5ct");

    // Submit three readings: 100, 250, 300
    oracle
        .submit_reading(addr("oracle1"), geo_cell.clone(), ReadingType::Rainfall, 100, 999000, SIGNATURE, now)
        .unwrap();
    oracle
        .submit_reading(addr("oracle2"), geo_cell.clone(), ReadingType::Rainfall, 250, 999500, SIGNATURE, now)
        .unwrap();
    oracle
        .submit_reading(addr("oracle3"), geo_cell.clone(), ReadingType::Rainfall, 300, 1000000, SIGNATURE, now)
        .unwrap();

    oracle.aggregate_readings(addr("admin"), geo_cell.clone(), ReadingType::Rainfall, 10000, now).unwrap();

    let aggregated = oracle.get_aggregated(geo_cell, ReadingType::Rainfall).unwrap();

    assert_eq!(aggregated.value, 250); // Median of [100, 250, 300]
    assert_eq!(aggregated.sample_count, 3);
}

#[test]
fn test_oracle_rejects_old_readings() {
    let now = 1000000;
    let mut oracle = oracle_with_nodes(&["node"]); // 48 hours max age

    let result = oracle.submit_reading(addr("node"), s("9q5ct"), ReadingType::Rainfall, 250, 800000, SIGNATURE, now);

    assert!(result.is_err());
}

#[test]
fn test_oracle_rejects_non_whitelisted() {
    let now = 1000000;
    let mut oracle = oracle_with_nodes(&[]);

    let result =
        oracle.submit_reading(addr("unauthorized"), s("9q5ct"), ReadingType::Rainfall, 250, 1000000, SIGNATURE, now);

    assert!(result.is_err());
}

#[test]
fn test_oracle_rejects_future_timestamp() {
    let now = 1000000;
    let mut oracle = oracle_with_nodes(&["node"]);

    let result = oracle.submit_reading(addr("node"), s("9q5ct"), ReadingType::Rainfall, 250, 2000000, SIGNATURE, now);

    assert!(result.is_err());
}

#[test]
fn test_oracle_aggregation_filters_by_age() {
    let now = 1000000;
    let mut oracle = oracle_with_nodes(&["oracle1", "oracle2"]); // 48 hours max age
    let geo_cell = s("9q5ct");

    // Old reading (100), older than the aggregation window
    oracle
        .submit_reading(addr("oracle1"), geo_cell.clone(), ReadingType::Rainfall, 100, 900000, SIGNATURE, now)
        .unwrap();
    // Recent reading (300)
    oracle
        .submit_reading(addr("oracle2"), geo_cell.clone(), ReadingType::Rainfall, 300, 1000000, SIGNATURE, now)
        .unwrap();

    // Aggregate with 50000 second window (excludes the old reading)
    oracle.aggregate_readings(addr("admin"), geo_cell.clone(), ReadingType::Rainfall, 50000, now).unwrap();

    let aggregated = oracle.get_aggregated(geo_cell, ReadingType::Rainfall).unwrap();

    assert_eq!(aggregated.value, 300);
    assert_eq!(aggregated.sample_count, 1);
}

#[test]
fn test_oracle_not_authorized_to_add_node() {
    let mut oracle = oracle_with_nodes(&[]);

    let result = oracle.add_oracle_node(addr("unauthorized"), addr("node"));

    assert!(result.is_err());
}

#[test]
fn oracle_timestamp_validation_edges() {
    assert_eq!(OracleContract::validate_timestamp(100, 0, 50), Err(Error::InvalidTimestamp));
    assert_eq!(OracleContract::validate_timestamp(100, 101, 50), Err(Error::InvalidTimestamp));
    assert_eq!(OracleContract::validate_timestamp(100, 100, 0), Ok(()));
    assert_eq!(OracleContract::validate_timestamp(100, 50, 50), Ok(()));
    assert_eq!(OracleContract::validate_timestamp(100, 49, 50), Err(Error::StaleReading));
}

#[test]
fn oracle_error_variants() {
    let mut oracle = OracleContract::new();
    let g = s("g");
    assert_eq!(
        oracle.submit_reading(addr("n"), g.clone(), ReadingType::NDVI, 1, 1, SIGNATURE, 1),
        Err(Error::NotInitialized)
    );
    assert_eq!(oracle.add_oracle_node(addr("admin"), addr("n")), Err(Error::NotInitialized));
    assert_eq!(oracle.remove_oracle_node(addr("admin"), addr("n")), Err(Error::NotInitialized));
    assert_eq!(oracle.initialize(addr("admin"), 0), Err(Error::InvalidHistorySize));
    oracle.initialize(addr("admin"), 100).unwrap();
    assert_eq!(oracle.initialize(addr("admin"), 100), Err(Error::AlreadyInitialized));
    assert_eq!(oracle.remove_oracle_node(addr("other"), addr("admin")), Err(Error::NotAuthorized));
    assert_eq!(
        oracle.submit_reading(addr("n"), g.clone(), ReadingType::NDVI, 1, 1, SIGNATURE, 1),
        Err(Error::NotWhitelisted)
    );
    assert_eq!(
        oracle.submit_reading(addr("admin"), g.clone(), ReadingType::NDVI, 1, 0, SIGNATURE, 1),
        Err(Error::InvalidTimestamp)
    );
    assert_eq!(
        oracle.submit_reading(addr("admin"), g.clone(), ReadingType::NDVI, 1, 1, SIGNATURE, 102),
        Err(Error::StaleReading)
    );
    assert_eq!(oracle.get_latest(g.clone(), ReadingType::NDVI).unwrap_err(), Error::NoReadingsAvailable);
    assert_eq!(oracle.get_history(g.clone(), ReadingType::NDVI).unwrap_err(), Error::NoReadingsAvailable);
    assert_eq!(oracle.get_history_count(g.clone(), ReadingType::NDVI), Err(Error::NoReadingsAvailable));
    assert_eq!(oracle.get_median(g.clone(), ReadingType::NDVI), Err(Error::NoReadingsAvailable));
    assert_eq!(
        oracle.aggregate_readings(addr("admin"), g.clone(), ReadingType::NDVI, 10, 102),
        Err(Error::NoReadingsAvailable)
    );
    assert_eq!(oracle.get_aggregated(g, ReadingType::NDVI).unwrap_err(), Error::NoAggregatedReading);
}

#[test]
fn oracle_latest_reading_is_the_last_submitted() {
    let mut oracle = oracle_with_nodes(&["n1", "n2"]);
    let g = s("9q5ct");
    oracle.submit_reading(addr("n1"), g.clone(), ReadingType::SoilMoisture, 40, 1_000, SIGNATURE, 2_000).unwrap();
    oracle.submit_reading(addr("n2"), g.clone(), ReadingType::SoilMoisture, 45, 900, SIGNATURE, 2_000).unwrap();
    let latest = oracle.get_latest(g.clone(), ReadingType::SoilMoisture).unwrap();
    assert_eq!(latest.value, 45);
    // the latest reading carries the time it was accepted; the history the time it was taken
    assert_eq!(latest.timestamp, 2_000);
    assert_eq!(latest.geo_cell, g);
    assert_eq!(latest.reading_type, ReadingType::SoilMoisture);
    let history = oracle.get_history(g.clone(), ReadingType::SoilMoisture).unwrap();
    assert_eq!(history.len(), 2);
    assert_eq!(history[0].submitter, addr("n1"));
    assert_eq!(history[1].value, 45);
    // other feeds are untouched
    assert!(oracle.get_latest(g.clone(), ReadingType::Rainfall).is_err());
    assert!(oracle.get_latest(s("other"), ReadingType::SoilMoisture).is_err());
}

#[test]
fn oracle_history_keeps_the_most_recent_readings() {
    let mut oracle = oracle_with_nodes(&["n"]);
    let g = s("g");
    let total = DEFAULT_MAX_HISTORY_SIZE + 5;
    for i in 0..total {
        oracle
            .submit_reading(addr("n"), g.clone(), ReadingType::Rainfall, i, 1_000 + i as u64, SIGNATURE, 2_000)
            .unwrap();
    }
    assert_eq!(oracle.get_history_count(g.clone(), ReadingType::Rainfall), Ok(DEFAULT_MAX_HISTORY_SIZE));
    let history = oracle.get_history(g.clone(), ReadingType::Rainfall).unwrap();
    assert_eq!(history[0].value, 5);
    assert_eq!(history[history.len() - 1].value, total - 1);
    assert_eq!(oracle.get_latest(g, ReadingType::Rainfall).unwrap().value, total - 1);
}

#[test]
fn oracle_median_of_even_count_is_mean_of_middle_values() {
    let mut oracle = oracle_with_nodes(&["n"]);
    let g = s("9q5ct");
    // 250 and 280 aggregate to 265 over 2 samples
    oracle.submit_reading(addr("n"), g.clone(), ReadingType::Rainfall, 280, 1000005, SIGNATURE, 1000010).unwrap();
    oracle.submit_reading(addr("n"), g.clone(), ReadingType::Rainfall, 250, 1000000, SIGNATURE, 1000010).unwrap();
    oracle.aggregate_readings(addr("admin"), g.clone(), ReadingType::Rainfall, 10000, 1000010).unwrap();
    let aggregated = oracle.get_aggregated(g.clone(), ReadingType::Rainfall).unwrap();
    assert_eq!(aggregated.value, 265);
    assert_eq!(aggregated.sample_count, 2);
    assert_eq!(aggregated.timestamp, 1000010);
    assert_eq!(oracle.get_median(g.clone(), ReadingType::Rainfall), Ok(265));
    oracle.submit_reading(addr("n"), g.clone(), ReadingType::Rainfall, 7, 1000006, SIGNATURE, 1000010).unwrap();
    oracle.submit_reading(addr("n"), g.clone(), ReadingType::Rainfall, 9, 1000007, SIGNATURE, 1000010).unwrap();
    // sorted: 7, 9, 250, 280 -> (9 + 250) / 2
    assert_eq!(oracle.get_median(g, ReadingType::Rainfall), Ok(129));
}

#[test]
fn oracle_aggregation_with_no_recent_readings_fails_and_keeps_state() {
    let mut oracle = oracle_with_nodes(&["n"]);
    let g = s("g");
    oracle.submit_reading(addr("n"), g.clone(), ReadingType::NDVI, 5_000, 1_000, SIGNATURE, 1_000).unwrap();
    oracle.aggregate_readings(addr("admin"), g.clone(), ReadingType::NDVI, 0, 1_000).unwrap();
    assert_eq!(
        oracle.aggregate_readings(addr("admin"), g.clone(), ReadingType::NDVI, 10, 2_000),
        Err(Error::NoReadingsAvailable)
    );
    let aggregated = oracle.get_aggregated(g, ReadingType::NDVI).unwrap();
    assert_eq!(aggregated.value, 5_000);
    assert_eq!(aggregated.timestamp, 1_000);
}

#[test]
fn oracle_history_keeps_the_time_each_reading_was_taken() {
    let mut oracle = oracle_with_nodes(&["n"]);
    let g = s("g");
    oracle.submit_reading(addr("n"), g.clone(), ReadingType::Rainfall, 12, 999_000, SIGNATURE, 1_000_000).unwrap();
    assert_eq!(oracle.get_latest(g.clone(), ReadingType::Rainfall).unwrap().timestamp, 1_000_000);
    let history = oracle.get_history(g, ReadingType::Rainfall).unwrap();
    assert_eq!(history[0].timestamp, 999_000);
}

#[test]
fn oracle_aggregation_is_admin_only() {
    let mut unset = OracleContract::new();
    assert_eq!(
        unset.aggregate_readings(addr("admin"), s("g"), ReadingType::Rainfall, 10, 10),
        Err(Error::NoReadingsAvailable)
    );
    let mut oracle = oracle_with_nodes(&["n"]);
    let g = s("g");
    oracle.submit_reading(addr("n"), g.clone(), ReadingType::Rainfall, 30, 1_000, SIGNATURE, 1_000).unwrap();
    assert_eq!(
        oracle.aggregate_readings(addr("n"), g.clone(), ReadingType::Rainfall, 100, 1_000),
        Err(Error::NotAuthorized)
    );
    assert_eq!(oracle.get_aggregated(g.clone(), ReadingType::Rainfall).unwrap_err(), Error::NoAggregatedReading);
    oracle.aggregate_readings(addr("admin"), g.clone(), ReadingType::Rainfall, 100, 1_000).unwrap();
    assert_eq!(oracle.get_aggregated(g, ReadingType::Rainfall).unwrap().value, 30);
}

#[test]
fn oracle_median_of_the_largest_values() {
    let mut oracle = oracle_with_nodes(&["n"]);
    let g = s("g");
    oracle.submit_reading(addr("n"), g.clone(), ReadingType::NDVI, u32::MAX, 1_000, SIGNATURE, 1_000).unwrap();
    oracle.submit_reading(addr("n"), g.clone(), ReadingType::NDVI, u32::MAX, 1_000, SIGNATURE, 1_000).unwrap();
    assert_eq!(oracle.get_median(g.clone(), ReadingType::NDVI), Ok(u32::MAX));
    oracle.submit_reading(addr("n"), g.clone(), ReadingType::NDVI, u32::MAX - 1, 1_000, SIGNATURE, 1_000).unwrap();
    oracle.submit_reading(addr("n"), g.clone(), ReadingType::NDVI, 0, 1_000, SIGNATURE, 1_000).unwrap();
    // sorted: 0, MAX - 1, MAX, MAX -> (MAX - 1 + MAX) / 2
    assert_eq!(oracle.get_median(g.clone(), ReadingType::NDVI), Ok(u32::MAX - 1));
    oracle.aggregate_readings(addr("admin"), g.clone(), ReadingType::NDVI, 10, 1_000).unwrap();
    assert_eq!(oracle.get_aggregated(g, ReadingType::NDVI).unwrap().value, u32::MAX - 1);
}

#[test]
fn oracle_median_does_not_depend_on_order() {
    assert_eq!(OracleContract::calculate_median(vec![300, 100, 250]), Ok(250));
    assert_eq!(OracleContract::calculate_median(vec![100, 250, 300]), Ok(250));
    assert_eq!(OracleContract::calculate_median(vec![280, 250]), Ok(265));
    assert_eq!(OracleContract::calculate_median(vec![]), Err(Error::NoReadingsAvailable));
}
