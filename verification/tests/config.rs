use embeprom::config::label_value_len;
use embeprom::config::max_groups;
use embeprom::config::LABEL_VALUE_LEN;
use embeprom::config::MAX_GROUPS;
use embeprom::config::MAX_HISTOGRAM_BUCKETS;
use embeprom::config::MAX_LINE;

#[test]
fn largest_enabled_label_capacity_wins() {
    assert_eq!(label_value_len(false, true), 128);
    assert_eq!(label_value_len(true, true), 128);
    assert_eq!(label_value_len(true, false), 64);
    assert_eq!(label_value_len(false, false), 48);
    assert_eq!(LABEL_VALUE_LEN, 48);
}

#[test]
fn largest_enabled_group_capacity_wins() {
    assert_eq!(max_groups(false, false, false, false, true), 512);
    assert_eq!(max_groups(true, true, true, true, true), 512);
    assert_eq!(max_groups(true, true, true, true, false), 256);
    assert_eq!(max_groups(true, true, true, false, false), 128);
    assert_eq!(max_groups(true, true, false, false, false), 64);
    assert_eq!(max_groups(true, false, false, false, false), 32);
    assert_eq!(max_groups(false, false, false, false, false), 16);
    assert_eq!(MAX_GROUPS, 16);
}

#[test]
fn default_renderer_capacities() {
    assert_eq!(MAX_LINE, 256);
    assert_eq!(MAX_HISTOGRAM_BUCKETS, 16);
}
