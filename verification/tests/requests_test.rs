use casper_node::primitives::{Digest, ProtocolVersion};
use casper_node::round_seigniorage::{RoundSeigniorageRateRequest, RoundSeigniorageRateResult};
use casper_node::supply_query::{total_supply, QueryError, QueryResult, StoredValue};
use casper_node::u512::U512;
use num_rational::Ratio;

const ROOT: Digest = Digest { high: 1, low: 2 };

fn message(answer: QueryResult) -> String {
    match total_supply(answer, ROOT) {
        Err(QueryError::Mint(text)) => text,
        other => panic!("unexpected result: {:?}", other),
    }
}

#[test]
fn request_holds_its_parts() {
    let request =
        RoundSeigniorageRateRequest::new(ROOT, ProtocolVersion::from_parts(1, 5, 6), true);
    assert_eq!(request.state_hash(), ROOT);
    assert_eq!(request.protocol_version(), ProtocolVersion { major: 1, minor: 5, patch: 6 });
    assert!(request.enable_to_entity());
}

#[test]
fn requests_are_equal_where_their_parts_are() {
    let version = ProtocolVersion::from_parts(1, 0, 0);
    let a = RoundSeigniorageRateRequest::new(ROOT, version, false);
    assert_eq!(a, RoundSeigniorageRateRequest::new(ROOT, version, false));
    assert_ne!(a, RoundSeigniorageRateRequest::new(ROOT, version, true));
}

#[test]
fn result_holds_a_rate() {
    let rate = Ratio::new_raw(U512::from_u64(1), U512::from_u64(100));
    let result: RoundSeigniorageRateResult<String> = RoundSeigniorageRateResult::Success { rate };
    match result {
        RoundSeigniorageRateResult::Success { rate } => {
            assert_eq!(rate.numer().to_u64(), Some(1));
            assert_eq!(rate.denom().to_u64(), Some(100));
        }
        other => panic!("unexpected result: {:?}", other),
    }
}

#[test]
fn total_supply_is_read() {
    let answer = QueryResult::Success { value: StoredValue::CLValue(Ok(U512::from_u64(9))) };
    assert_eq!(total_supply(answer, ROOT).unwrap().to_u64(), Some(9));
}

#[test]
fn other_values_hold_no_supply() {
    assert_eq!(message(QueryResult::Success { value: StoredValue::Other }), "Value not a CLValue");
    let wrong = StoredValue::CLValue(Err("wrong type".to_string()));
    assert_eq!(message(QueryResult::Success { value: wrong }), "CLValue not a U512: wrong type");
}

#[test]
fn failed_queries_name_the_failure() {
    assert_eq!(message(QueryResult::ValueNotFound("key".to_string())), "ValueNotFound(key)");
    assert_eq!(
        message(QueryResult::CircularReference("path".to_string())),
        "CircularReference(path)"
    );
    assert_eq!(message(QueryResult::DepthLimit { depth: 5 }), "DepthLimit(5)");
    assert!(matches!(
        total_supply(QueryResult::RootNotFound, ROOT),
        Err(QueryError::RootNotFound(Digest { high: 1, low: 2 }))
    ));
}
