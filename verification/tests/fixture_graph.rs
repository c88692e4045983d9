//! A diamond of fixtures, described to the graph traits by hand: Dex and
//! Staking build on Token (Dex also on Oracle); Protocol builds on both.
use crucible::fixture_graph::{AcyclicFixture, FixtureDeps};
use std::sync::Mutex;

static SETUP_LOG: Mutex<Vec<&'static str>> = Mutex::new(Vec::new());

fn record(name: &'static str) {
    SETUP_LOG.lock().unwrap().push(name);
}

fn take_log() -> Vec<&'static str> {
    std::mem::take(&mut *SETUP_LOG.lock().unwrap())
}

#[derive(Debug)]
pub struct TokenFixture {
    pub supply: i128,
}

impl TokenFixture {
    pub const DEPENDENCY_COUNT: usize = 0;

    pub fn setup() -> Self {
        record("token");
        Self { supply: 1_000 }
    }
}

impl FixtureDeps for TokenFixture {
    type Deps = ();
    const DEPENDENCY_NAMES: &'static [&'static str] = &[];

    fn setup_checked() -> Self {
        Self::setup()
    }
}

impl AcyclicFixture for TokenFixture {}

#[derive(Debug)]
pub struct OracleFixture {
    pub price: i128,
}

impl OracleFixture {
    pub const DEPENDENCY_COUNT: usize = 0;

    pub fn setup() -> Self {
        record("oracle");
        Self { price: 42 }
    }
}

impl FixtureDeps for OracleFixture {
    type Deps = ();
    const DEPENDENCY_NAMES: &'static [&'static str] = &[];

    fn setup_checked() -> Self {
        Self::setup()
    }
}

impl AcyclicFixture for OracleFixture {}

#[derive(Debug)]
pub struct DexFixture {
    pub token: TokenFixture,
    pub oracle: OracleFixture,
}

impl DexFixture {
    pub const DEPENDENCY_COUNT: usize = 2;

    pub fn setup_deps() -> (TokenFixture, OracleFixture) {
        (TokenFixture::setup_checked(), OracleFixture::setup_checked())
    }

    pub fn setup() -> Self {
        let (token, oracle) = Self::setup_deps();
        record("dex");
        Self { token, oracle }
    }
}

impl FixtureDeps for DexFixture {
    type Deps = (TokenFixture, OracleFixture);
    const DEPENDENCY_NAMES: &'static [&'static str] = &["TokenFixture", "OracleFixture"];

    fn setup_checked() -> Self {
        Self::setup()
    }
}

impl AcyclicFixture for DexFixture {}

#[derive(Debug)]
pub struct StakingFixture {
    pub token: TokenFixture,
}

impl StakingFixture {
    pub const DEPENDENCY_COUNT: usize = 1;

    pub fn setup_deps() -> (TokenFixture,) {
        (TokenFixture::setup_checked(),)
    }

    pub fn setup() -> Self {
        let (token,) = Self::setup_deps();
        record("staking");
        Self { token }
    }
}

impl FixtureDeps for StakingFixture {
    type Deps = (TokenFixture,);
    const DEPENDENCY_NAMES: &'static [&'static str] = &["TokenFixture"];

    fn setup_checked() -> Self {
        Self::setup()
    }
}

impl AcyclicFixture for StakingFixture {}

#[test]
fn dependencies_are_reported_in_declaration_order() {
    assert_eq!(DexFixture::DEPENDENCY_COUNT, 2);
    assert_eq!(
        <DexFixture as FixtureDeps>::DEPENDENCY_NAMES,
        ["TokenFixture", "OracleFixture"]
    );

    assert_eq!(StakingFixture::DEPENDENCY_COUNT, 1);
    assert_eq!(
        <StakingFixture as FixtureDeps>::DEPENDENCY_NAMES,
        ["TokenFixture"]
    );
}

#[test]
fn setup_deps_returns_usable_fixtures() {
    let _ = take_log();

    let (token, oracle) = DexFixture::setup_deps();

    let _ = &token.supply;
    assert_eq!(oracle.price, 42);
    assert_eq!(take_log(), ["token", "oracle"]);
}

#[test]
fn a_fixture_without_dependencies_reports_an_empty_graph() {
    let _ = take_log();
    assert_eq!(TokenFixture::DEPENDENCY_COUNT, 0);
    assert!(<TokenFixture as FixtureDeps>::DEPENDENCY_NAMES.is_empty());
    let fixture = TokenFixture::setup();
    assert_eq!(fixture.supply, 1_000);
    assert_eq!(take_log(), ["token"]);
}

#[test]
fn setup_builds_dependencies_before_the_dependent() {
    let _ = take_log();
    let staking = StakingFixture::setup();
    assert_eq!(staking.token.supply, 1_000);
    assert_eq!(take_log(), ["token", "staking"]);
}
