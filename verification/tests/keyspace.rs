use highwater::keyspace::{
    encoded, key_group_for, ordered_f64_bits, process_event_key, process_mailbox_key,
    process_shard_mailbox_key, stream_record_key, workflow_key,
};

#[test]
fn identifiers_are_base64url_without_padding() {
    assert_eq!(encoded("orders"), "b3JkZXJz");
    assert_eq!(encoded("a"), "YQ");
    assert_eq!(encoded(""), "");
    assert_eq!(encoded("a/b?"), "YS9iPw");
}

#[test]
fn keys_pad_positions_so_byte_order_is_numeric_order() {
    assert_eq!(workflow_key("a"), "workflow/YQ");
    assert_eq!(
        stream_record_key("orders", 2, 15),
        "stream-record/b3JkZXJz/0000000002/00000000000000000015"
    );
    assert!(process_mailbox_key("p", 9) < process_mailbox_key("p", 10));
    assert_eq!(
        process_shard_mailbox_key("p", 3, 1),
        "process-shard-mailbox/cA/0003/00000000000000000001"
    );
    assert_eq!(process_event_key("p", 3, "k", "e"), "process-event/cA/0003/aw/ZQ");
}

#[test]
fn key_groups_hash_the_key_with_fnv1a() {
    assert_eq!(key_group_for(None, 0, 128), 37);
    assert_eq!(key_group_for(Some("a"), 5, 128), 12);
    assert_eq!(key_group_for(Some("order-17"), 0, 7), 1);
    assert_eq!(key_group_for(Some("order-17"), 0, 1), 0);
}

#[test]
fn float_keys_sort_as_the_numbers_do() {
    let values = [-10.5f64, -1.0, -0.0, 0.0, 0.25, 3.0, 1e300];
    for pair in values.windows(2) {
        assert!(ordered_f64_bits(pair[0].to_bits()) <= ordered_f64_bits(pair[1].to_bits()));
    }
    assert_eq!(ordered_f64_bits(0.0f64.to_bits()), 1u64 << 63);
}
