use std::sync::Arc;

use consistent_balances::validator::{Validator, ValidatorContents, ValidatorSetContents};

fn validators() -> Arc<ValidatorSetContents<&'static str>> {
    Arc::new(ValidatorSetContents {
        scope: Arc::new("checkpoint 9"),
        active_validators: vec![
            ValidatorContents { at_risk: 3, bytes: vec![1, 2], reports: vec![1, 5, 0] },
            ValidatorContents { at_risk: 0, bytes: vec![], reports: vec![] },
        ],
    })
}

fn validator(idx: usize) -> Validator<&'static str> {
    Validator { contents: validators(), idx }
}

#[test]
fn active_validator_is_found_by_position() {
    assert_eq!(validator(0).validator().unwrap().at_risk, 3);
    assert_eq!(validator(0).at_risk(), Some(3));
    assert_eq!(validator(1).at_risk(), Some(0));
    assert!(validator(2).validator().is_none());
    assert_eq!(validator(2).at_risk(), None);
}

#[test]
fn contents_are_typed_in_the_scope_of_the_set() {
    let first = validator(0);
    let value = first.contents().unwrap();
    assert_eq!(*value.scope, "checkpoint 9");
    assert!(Arc::ptr_eq(&value.scope, &first.contents.scope));
    assert_eq!(value.native, [1, 2]);
    assert_eq!(
        value.type_.to_canonical_string(true),
        format!("0x{}3::validator::Validator", "0".repeat(63)),
    );
    assert!(validator(2).contents().is_none());
}

#[test]
fn reports_lead_to_validators_of_the_same_set() {
    let reporter = validator(0);
    let reported = reporter.report_records(&vec![2, 0, 1]).unwrap();
    assert_eq!(reported.iter().map(|v| v.idx).collect::<Vec<_>>(), [0, 1, 5]);
    assert!(reported.iter().all(|v| Arc::ptr_eq(&v.contents, &reporter.contents)));
    assert!(reported[2].validator().is_none());
    assert!(validator(1).report_records(&vec![]).unwrap().is_empty());
    assert!(validator(2).report_records(&vec![9]).is_none());
}

#[test]
fn copy_of_a_validator_is_the_same() {
    let first = validator(0);
    let copy = first.clone();
    assert_eq!(copy.idx, first.idx);
    assert!(Arc::ptr_eq(&copy.contents, &first.contents));
}
