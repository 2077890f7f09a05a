use twitch_notify::clock::get_nr_of_days_in_month;

#[test]
fn main_test_nr_of_days_in_a_month() {
    assert_eq!(get_nr_of_days_in_month(1, 2020), 31);
    assert_eq!(get_nr_of_days_in_month(2, 2020), 29);
    assert_eq!(get_nr_of_days_in_month(2, 2021), 28);
    assert_eq!(get_nr_of_days_in_month(3, 2020), 31);
    assert_eq!(get_nr_of_days_in_month(4, 2020), 30);
    assert_eq!(get_nr_of_days_in_month(5, 2020), 31);
    assert_eq!(get_nr_of_days_in_month(6, 2020), 30);
    assert_eq!(get_nr_of_days_in_month(7, 2020), 31);
    assert_eq!(get_nr_of_days_in_month(8, 2020), 31);
    assert_eq!(get_nr_of_days_in_month(9, 2020), 30);
    assert_eq!(get_nr_of_days_in_month(10, 2020), 31);
    assert_eq!(get_nr_of_days_in_month(11, 2020), 30);
    assert_eq!(get_nr_of_days_in_month(12, 2020), 31);
}

#[test]
fn tests_test_nr_of_days_in_a_month() {
    assert_eq!(get_nr_of_days_in_month(1, 2020), 31);
    assert_eq!(get_nr_of_days_in_month(2, 2020), 29);
    assert_eq!(get_nr_of_days_in_month(2, 2021), 28);
    assert_eq!(get_nr_of_days_in_month(3, 2020), 31);
    assert_eq!(get_nr_of_days_in_month(4, 2020), 30);
    assert_eq!(get_nr_of_days_in_month(5, 2020), 31);
    assert_eq!(get_nr_of_days_in_month(6, 2020), 30);
    assert_eq!(get_nr_of_days_in_month(7, 2020), 31);
    assert_eq!(get_nr_of_days_in_month(8, 2020), 31);
    assert_eq!(get_nr_of_days_in_month(9, 2020), 30);
    assert_eq!(get_nr_of_days_in_month(10, 2020), 31);
    assert_eq!(get_nr_of_days_in_month(11, 2020), 30);
    assert_eq!(get_nr_of_days_in_month(12, 2020), 31);
}

#[test]
fn days_in_february_of_century_and_negative_years() {
    assert_eq!(get_nr_of_days_in_month(2, 1900), 29);
    assert_eq!(get_nr_of_days_in_month(2, -4), 29);
    assert_eq!(get_nr_of_days_in_month(2, -1), 28);
    assert_eq!(get_nr_of_days_in_month(13, 2020), 31);
    assert_eq!(get_nr_of_days_in_month(0, 2020), 31);
}
