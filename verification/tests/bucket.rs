use load_s3_agent::bucket::{add_listing, get_bucket_tags, next_listing, BucketStats, ListingStep};
use load_s3_agent::tags::data_protocol_name;

fn again(token: Option<&str>) -> ListingStep {
    ListingStep::Again { token: token.map(|t| t.to_string()) }
}

#[test]
fn listings_add_up() {
    let zero = BucketStats { objects: 0, bytes: 0 };
    assert_eq!(add_listing(zero, &vec![]), Some(zero));
    let one = add_listing(zero, &vec![10, 0, 5]).unwrap();
    assert_eq!(one, BucketStats { objects: 3, bytes: 15 });
    let two = add_listing(one, &vec![1_000_000_000_000]).unwrap();
    assert_eq!(two, BucketStats { objects: 4, bytes: 1_000_000_000_015 });
}

#[test]
fn statistics_that_do_not_fit_are_refused() {
    let full = BucketStats { objects: u32::MAX, bytes: 0 };
    assert_eq!(add_listing(full, &vec![1]), None);
    assert_eq!(add_listing(full, &vec![]), Some(full));
    let heavy = BucketStats { objects: 1, bytes: u64::MAX - 1 };
    assert_eq!(add_listing(heavy, &vec![1]), Some(BucketStats { objects: 2, bytes: u64::MAX }));
    assert_eq!(add_listing(heavy, &vec![1, 1]), None);
    assert_eq!(add_listing(heavy, &vec![2]), None);
}

#[test]
fn listings_go_on_while_truncated() {
    assert_eq!(next_listing(1000, true, true, Some("t1".to_string()), None), again(Some("t1")));
    assert_eq!(next_listing(1000, true, true, None, Some("t0".to_string())), again(Some("")));
    assert_eq!(next_listing(1500, true, false, None, Some("t1".to_string())), ListingStep::Done);
    assert_eq!(
        next_listing(1500, true, false, Some("ignored".to_string()), None),
        ListingStep::Done
    );
}

#[test]
fn listing_without_objects_keeps_the_token() {
    assert_eq!(next_listing(7, false, false, None, Some("t1".to_string())), again(Some("t1")));
    assert_eq!(next_listing(7, false, true, Some("t2".to_string()), None), ListingStep::Done);
    // nothing counted yet: the listing is asked for again
    assert_eq!(next_listing(0, false, false, None, None), again(None));
}

#[test]
fn account_keys_are_the_tag_values_with_the_prefix() {
    let tags = vec![
        ("owner".to_string(), "load_acc_abc".to_string()),
        ("load_acc_key".to_string(), "plain".to_string()),
        ("other".to_string(), "load_acc_".to_string()),
        ("x".to_string(), "Load_acc_no".to_string()),
        ("y".to_string(), " load_acc_spaced".to_string()),
    ];
    assert_eq!(get_bucket_tags(&tags), vec!["load_acc_abc", "load_acc_"]);
    assert_eq!(get_bucket_tags(&[]), Vec::<String>::new());
}

#[test]
fn protocol_marker_has_its_name() {
    assert_eq!(data_protocol_name(), "Load-S3");
}
