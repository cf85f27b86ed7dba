use load_s3_agent::registry::{
    get_bucket_file_path, get_bucket_registry, load_bucket_registry, set_dataitem_name,
    BucketRegistry, RegistryEntry,
};

fn entry(id: &str, name: &str) -> RegistryEntry {
    RegistryEntry { dataitem_id: id.to_string(), dataitem_name: name.to_string() }
}

#[test]
fn bucket_file_name_is_sanitized() {
    assert_eq!(get_bucket_file_path("photos"), "photos.json");
    assert_eq!(get_bucket_file_path("a/b\\c:d*e?f\"g<h>i|j"), "a_b_c_d_e_f_g_h_i_j.json");
    assert_eq!(get_bucket_file_path("../etc"), ".._etc.json");
    assert_eq!(get_bucket_file_path(""), ".json");
    assert_eq!(get_bucket_file_path("bücket"), "bücket.json");
}

#[test]
fn naming_a_new_item_appends_an_entry() {
    let mut registry = BucketRegistry { bucket_name: "b".to_string(), data: vec![entry("1", "one")] };
    set_dataitem_name(&mut registry, "2", "two");
    assert_eq!(registry.bucket_name, "b");
    assert_eq!(registry.data, vec![entry("1", "one"), entry("2", "two")]);
}

#[test]
fn naming_a_known_item_replaces_its_name_in_place() {
    let mut registry = BucketRegistry {
        bucket_name: "b".to_string(),
        data: vec![entry("1", "one"), entry("2", "two"), entry("3", "three")],
    };
    set_dataitem_name(&mut registry, "2", "deux");
    assert_eq!(registry.data, vec![entry("1", "one"), entry("2", "deux"), entry("3", "three")]);
}

#[test]
fn only_the_first_entry_of_an_item_is_renamed() {
    let mut registry = BucketRegistry {
        bucket_name: "b".to_string(),
        data: vec![entry("1", "one"), entry("1", "uno")],
    };
    set_dataitem_name(&mut registry, "1", "eins");
    assert_eq!(registry.data, vec![entry("1", "eins"), entry("1", "uno")]);
}

#[test]
fn a_collection_without_stored_registry_is_empty() {
    let registry = load_bucket_registry("photos", None);
    assert_eq!(registry, BucketRegistry { bucket_name: "photos".to_string(), data: Vec::new() });
    assert_eq!(get_bucket_registry("photos", None), Vec::new());
    assert_eq!(BucketRegistry::default().data, Vec::new());
}

#[test]
fn a_stored_registry_is_used_as_it_is() {
    let stored = BucketRegistry { bucket_name: "other".to_string(), data: vec![entry("1", "one")] };
    assert_eq!(load_bucket_registry("photos", Some(stored.clone())), stored);
    assert_eq!(get_bucket_registry("photos", Some(stored)), vec![entry("1", "one")]);
}
