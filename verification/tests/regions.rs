use bottlecap::regions::{get_list, list_region, output_region, ListRegionError, ListRegionOptions};

#[test]
fn regions_are_written_with_commas_between() {
    let names = vec![
        "us-east-1".to_string(),
        "eu-west-1".to_string(),
        "ap-south-1".to_string(),
    ];
    assert_eq!(
        output_region(&names),
        b"us-east-1,eu-west-1,ap-south-1".to_vec()
    );
    assert_eq!(output_region(&vec!["us-east-1".to_string()]), b"us-east-1".to_vec());
    assert_eq!(output_region(&Vec::new()), Vec::<u8>::new());
}

#[test]
fn entries_without_a_name_are_passed_over() {
    let entries = vec![
        Some("us-east-1".to_string()),
        None,
        Some("eu-west-1".to_string()),
    ];
    assert_eq!(
        get_list(Some(&entries)),
        Ok(vec!["us-east-1".to_string(), "eu-west-1".to_string()])
    );
    assert_eq!(list_region(Some(&entries)), Ok(b"us-east-1,eu-west-1".to_vec()));
}

#[test]
fn answer_without_regions_is_an_error() {
    assert_eq!(get_list(None), Err(ListRegionError::NoRegions));
    assert_eq!(list_region(None), Err(ListRegionError::NoRegions));
    assert_eq!(list_region(Some(&Vec::new())), Ok(Vec::new()));
}

#[test]
fn options_hold_role_and_external_id() {
    let options = ListRegionOptions {
        assume_role: Some("role".to_string()),
        external_id: None,
    };
    assert_eq!(options.assume_role.as_deref(), Some("role"));
    assert_eq!(options.external_id, None);
}
