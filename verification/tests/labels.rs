use embeprom::labels::build_block;

static NAMES: [&str; 1] = ["reason"];
static NAMES2: [&str; 2] = ["peer", "code"];

#[test]
fn builds_a_single_label_block() {
    let block = build_block::<1, 32>(&NAMES, &["beacon_timeout"]).unwrap();
    assert_eq!(block.as_str(), "reason=\"beacon_timeout\"");
}

#[test]
fn builds_a_multi_label_block() {
    let block = build_block::<2, 32>(&NAMES2, &["ap-1", "200"]).unwrap();
    assert_eq!(block.as_str(), "peer=\"ap-1\",code=\"200\"");
}

#[test]
fn escapes_values_while_building() {
    let block = build_block::<1, 48>(&NAMES, &["has\"quote\\and\nnewline"]).unwrap();
    assert_eq!(block.as_str(), "reason=\"has\\\"quote\\\\and\\nnewline\"");
}

#[test]
fn rejects_a_block_that_does_not_fit() {
    assert!(build_block::<1, 8>(&NAMES, &["this value is way too long"]).is_err());
}

#[test]
fn a_block_of_exactly_the_budget_fits() {
    assert!(build_block::<1, 10>(&NAMES, &["x"]).is_ok());
    assert!(build_block::<1, 9>(&NAMES, &["x"]).is_err());
}

#[test]
fn a_block_without_labels_is_empty() {
    let block = build_block::<0, 0>(&[], &[]).unwrap();
    assert_eq!(block.as_str(), "");
}

#[test]
fn a_value_cannot_pass_for_another_label() {
    let one = build_block::<2, 64>(&NAMES2, &["a\",code=\"b", "c"]).unwrap();
    let two = build_block::<2, 64>(&NAMES2, &["a", "b\",code=\"c"]).unwrap();
    assert_eq!(one.as_str(), "peer=\"a\\\",code=\\\"b\",code=\"c\"");
    assert_eq!(two.as_str(), "peer=\"a\",code=\"b\\\",code=\\\"c\"");
}
