use zk_deap_harness::overrides::{override_fields, usize_list_or_default};

#[test]
fn absent_or_blank_override_keeps_default() {
    let d = [5usize, 10, 20, 50, 100, 250, 500];
    assert_eq!(usize_list_or_default(None, &d), d.to_vec());
    assert_eq!(usize_list_or_default(Some(""), &d), d.to_vec());
    assert_eq!(usize_list_or_default(Some(" \t "), &d), d.to_vec());
}

#[test]
fn override_keeps_fields_that_parse() {
    let d = [1usize];
    assert_eq!(usize_list_or_default(Some("5,10,20"), &d), vec![5, 10, 20]);
    assert_eq!(usize_list_or_default(Some(" 5, 10 ,x,,20 "), &d), vec![5, 10, 20]);
    assert_eq!(usize_list_or_default(Some("+3,-4"), &d), vec![3]);
    assert_eq!(usize_list_or_default(Some("x"), &d), Vec::<usize>::new());
}

#[test]
fn override_fields_are_trimmed_and_kept_in_order() {
    assert_eq!(override_fields(Some("0.5, 0.67 ,x")), Some(vec!["0.5".to_string(), "0.67".to_string(), "x".to_string()]));
    assert_eq!(override_fields(Some("0.25")), Some(vec!["0.25".to_string()]));
    assert_eq!(override_fields(Some("  ")), None);
    assert_eq!(override_fields(None), None);
    assert_eq!(override_fields(Some("a,,b")), Some(vec!["a".to_string(), "".to_string(), "b".to_string()]));
}
