use gpu_waiter::idlist::gpu_list_string;

#[test]
fn empty_list() {
    assert_eq!(gpu_list_string(&Vec::<u32>::new()), "");
}

#[test]
fn single_identifier() {
    assert_eq!(gpu_list_string(&vec![7u32]), "7");
}

#[test]
fn joins_with_commas() {
    assert_eq!(gpu_list_string(&vec![0u32, 1]), "0,1");
}

#[test]
fn multi_digit_identifiers() {
    assert_eq!(gpu_list_string(&vec![3u32, 12, 105]), "3,12,105");
}

#[test]
fn zero_identifier() {
    assert_eq!(gpu_list_string(&vec![0u32]), "0");
}

#[test]
fn largest_identifier() {
    assert_eq!(gpu_list_string(&vec![u32::MAX]), "4294967295");
}
