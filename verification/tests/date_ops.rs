use bambam::schedule::calendar::{Calendar, CalendarDate, Exception};
use bambam::schedule::date_ops::{
    confirm_add_exception, confirm_no_delete_exception, date_range_intersection,
    find_in_calendar, find_nearest_add_exception, step_date,
};
use bambam::schedule::error::ScheduleError;
use bambam::temporal::Date;

fn create_calendar_date(date: Date, exception_type: Exception) -> CalendarDate {
    CalendarDate {
        service_id: "test_service".to_string(),
        date,
        exception_type,
    }
}

fn create_calendar(start_date: Date, end_date: Date) -> Calendar {
    Calendar {
        id: "test_service".to_string(),
        start_date,
        end_date,
        monday: true,
        tuesday: true,
        wednesday: true,
        thursday: true,
        friday: true,
        saturday: true,
        sunday: true,
    }
}

#[test]
fn test_step_date_zero_step() {
    let date = Date::from_ymd_opt(2023, 6, 15).unwrap();
    let result = step_date(date, 0).unwrap();
    assert_eq!(result, date);
}

#[test]
fn test_step_date_positive_step() {
    let date = Date::from_ymd_opt(2023, 6, 15).unwrap();
    let expected = Date::from_ymd_opt(2023, 6, 20).unwrap();
    let result = step_date(date, 5).unwrap();
    assert_eq!(result, expected);
}

#[test]
fn test_step_date_negative_step() {
    let date = Date::from_ymd_opt(2023, 6, 15).unwrap();
    let expected = Date::from_ymd_opt(2023, 6, 10).unwrap();
    let result = step_date(date, -5).unwrap();
    assert_eq!(result, expected);
}

#[test]
fn test_step_date_overflow_positive() {
    // Test with a date close to the maximum representable date
    let date = Date::max_value();
    let result = step_date(date, 1);
    assert!(result.is_err());

    if let Err(ScheduleError::InvalidData(msg)) = result {
        assert!(msg.contains("failure adding"));
        assert!(msg.contains("bounds error"));
    } else {
        panic!("Expected InvalidDataError for overflow");
    }
}

#[test]
fn test_step_date_overflow_negative() {
    // Test with a date close to the minimum representable date
    let date = Date::min_value();
    let result = step_date(date, -1);
    assert!(result.is_err());

    if let Err(ScheduleError::InvalidData(msg)) = result {
        assert!(msg.contains("failure subtracting"));
        assert!(msg.contains("bounds error"));
    } else {
        panic!("Expected InvalidDataError for underflow");
    }
}

// Tests for confirm_add_exception
#[test]
fn test_confirm_add_exception_success() {
    let target = Date::from_ymd_opt(2023, 6, 15).unwrap();
    let calendar_dates = vec![
        create_calendar_date(
            Date::from_ymd_opt(2023, 6, 10).unwrap(),
            Exception::Added,
        ),
        create_calendar_date(target, Exception::Added),
        create_calendar_date(
            Date::from_ymd_opt(2023, 6, 20).unwrap(),
            Exception::Deleted,
        ),
    ];

    let result = confirm_add_exception(&target, &calendar_dates);
    assert!(result.is_ok());
    assert_eq!(result.unwrap(), target);
}

#[test]
fn test_confirm_add_exception_not_found() {
    let target = Date::from_ymd_opt(2023, 6, 15).unwrap();
    let calendar_dates = vec![
        create_calendar_date(
            Date::from_ymd_opt(2023, 6, 10).unwrap(),
            Exception::Added,
        ),
        create_calendar_date(
            Date::from_ymd_opt(2023, 6, 20).unwrap(),
            Exception::Deleted,
        ),
    ];

    let result = confirm_add_exception(&target, &calendar_dates);
    assert!(result.is_err());
    if let Err(ScheduleError::InvalidData(msg)) = result {
        assert!(msg.contains("no calendar_dates match target date"));
        assert!(msg.contains("06-15-2023")); // MM-DD-YYYY format
        assert!(msg.contains("exception_type as 'added'"));
    } else {
        panic!("Expected InvalidDataError");
    }
}

#[test]
fn test_confirm_add_exception_deleted_entry_exists() {
    let target = Date::from_ymd_opt(2023, 6, 15).unwrap();
    let calendar_dates = vec![
        create_calendar_date(target, Exception::Deleted), // Has the date but wrong exception type
        create_calendar_date(
            Date::from_ymd_opt(2023, 6, 20).unwrap(),
            Exception::Added,
        ),
    ];

    let result = confirm_add_exception(&target, &calendar_dates);
    assert!(result.is_err());
}

#[test]
fn test_confirm_add_exception_empty_calendar_dates() {
    let target = Date::from_ymd_opt(2023, 6, 15).unwrap();
    let calendar_dates: Vec<CalendarDate> = vec![];

    let result = confirm_add_exception(&target, &calendar_dates);
    assert!(result.is_err());
}

// Tests for confirm_no_delete_exception
#[test]
fn test_confirm_no_delete_exception_true() {
    let target = Date::from_ymd_opt(2023, 6, 15).unwrap();
    let calendar_dates = vec![
        create_calendar_date(
            Date::from_ymd_opt(2023, 6, 10).unwrap(),
            Exception::Added,
        ),
        create_calendar_date(target, Exception::Added),
        create_calendar_date(
            Date::from_ymd_opt(2023, 6, 20).unwrap(),
            Exception::Added,
        ),
    ];

    let result = confirm_no_delete_exception(&target, &calendar_dates);
    assert!(result);
}

#[test]
fn test_confirm_no_delete_exception_false() {
    let target = Date::from_ymd_opt(2023, 6, 15).unwrap();
    let calendar_dates = vec![
        create_calendar_date(
            Date::from_ymd_opt(2023, 6, 10).unwrap(),
            Exception::Added,
        ),
        create_calendar_date(target, Exception::Deleted),
        create_calendar_date(
            Date::from_ymd_opt(2023, 6, 20).unwrap(),
            Exception::Added,
        ),
    ];

    let result = confirm_no_delete_exception(&target, &calendar_dates);
    assert!(!result);
}

#[test]
fn test_confirm_no_delete_exception_date_not_present() {
    let target = Date::from_ymd_opt(2023, 6, 15).unwrap();
    let calendar_dates = vec![
        create_calendar_date(
            Date::from_ymd_opt(2023, 6, 10).unwrap(),
            Exception::Added,
        ),
        create_calendar_date(
            Date::from_ymd_opt(2023, 6, 20).unwrap(),
            Exception::Deleted,
        ),
    ];

    let result = confirm_no_delete_exception(&target, &calendar_dates);
    assert!(result); // True because target date is not in the list
}

#[test]
fn test_confirm_no_delete_exception_empty_calendar_dates() {
    let target = Date::from_ymd_opt(2023, 6, 15).unwrap();
    let calendar_dates: Vec<CalendarDate> = vec![];

    let result = confirm_no_delete_exception(&target, &calendar_dates);
    assert!(result); // True because no entries means no delete exceptions
}

// Tests for find_nearest_add_exception
#[test]
fn test_find_nearest_add_exception_exact_match() {
    let target = Date::from_ymd_opt(2023, 6, 15).unwrap();
    let calendar_dates = vec![
        create_calendar_date(
            Date::from_ymd_opt(2023, 6, 10).unwrap(),
            Exception::Added,
        ),
        create_calendar_date(target, Exception::Added),
        create_calendar_date(
            Date::from_ymd_opt(2023, 6, 20).unwrap(),
            Exception::Added,
        ),
    ];

    let result = find_nearest_add_exception(&target, &calendar_dates, 0, false);
    assert!(result.is_ok());
    assert_eq!(result.unwrap(), target);
}

#[test]
fn test_find_nearest_add_exception_nearest_within_tolerance() {
    let target = Date::from_ymd_opt(2023, 6, 15).unwrap(); // Friday
    let calendar_dates = vec![
        create_calendar_date(
            Date::from_ymd_opt(2023, 6, 12).unwrap(),
            Exception::Added,
        ), // 3 days before
        create_calendar_date(
            Date::from_ymd_opt(2023, 6, 18).unwrap(),
            Exception::Added,
        ), // 3 days after
        create_calendar_date(
            Date::from_ymd_opt(2023, 6, 20).unwrap(),
            Exception::Deleted,
        ), // Should be ignored
    ];

    let result = find_nearest_add_exception(&target, &calendar_dates, 5, false);
    assert!(result.is_ok());
    // Should return the closer one (6/12, which is 3 days away)
    assert_eq!(
        result.unwrap(),
        Date::from_ymd_opt(2023, 6, 12).unwrap()
    );
}

#[test]
fn test_find_nearest_add_exception_with_weekday_matching() {
    let target = Date::from_ymd_opt(2023, 6, 15).unwrap(); // Thursday
    let calendar_dates = vec![
        create_calendar_date(
            Date::from_ymd_opt(2023, 6, 12).unwrap(),
            Exception::Added,
        ), // Monday, 3 days before
        create_calendar_date(
            Date::from_ymd_opt(2023, 6, 8).unwrap(),
            Exception::Added,
        ), // Thursday, 7 days before
        create_calendar_date(
            Date::from_ymd_opt(2023, 6, 22).unwrap(),
            Exception::Added,
        ), // Thursday, 7 days after
    ];

    let result = find_nearest_add_exception(&target, &calendar_dates, 10, true);
    assert!(result.is_ok());
    // Should return the closer Thursday (6/8, which is 7 days away but matches weekday)
    assert_eq!(
        result.unwrap(),
        Date::from_ymd_opt(2023, 6, 8).unwrap()
    );
}

#[test]
fn test_find_nearest_add_exception_outside_tolerance() {
    let target = Date::from_ymd_opt(2023, 6, 15).unwrap();
    let calendar_dates = vec![
        create_calendar_date(
            Date::from_ymd_opt(2023, 6, 1).unwrap(),
            Exception::Added,
        ), // 14 days before
        create_calendar_date(
            Date::from_ymd_opt(2023, 6, 30).unwrap(),
            Exception::Added,
        ), // 15 days after
    ];

    let result = find_nearest_add_exception(&target, &calendar_dates, 5, false);
    assert!(result.is_err());
    if let Err(ScheduleError::InvalidData(msg)) = result {
        assert!(msg.contains("no Added entry in calendar_dates.txt"));
        assert!(msg.contains("within 5 days"));
        assert!(msg.contains("06-15-2023")); // MM-DD-YYYY format
    } else {
        panic!("Expected InvalidDataError");
    }
}

#[test]
fn test_find_nearest_add_exception_no_weekday_match() {
    let target = Date::from_ymd_opt(2023, 6, 15).unwrap(); // Thursday
    let calendar_dates = vec![
        create_calendar_date(
            Date::from_ymd_opt(2023, 6, 12).unwrap(),
            Exception::Added,
        ), // Monday
        create_calendar_date(
            Date::from_ymd_opt(2023, 6, 16).unwrap(),
            Exception::Added,
        ), // Friday
        create_calendar_date(
            Date::from_ymd_opt(2023, 6, 18).unwrap(),
            Exception::Added,
        ), // Sunday
    ];

    let result = find_nearest_add_exception(&target, &calendar_dates, 5, true);
    assert!(result.is_err());
    if let Err(ScheduleError::InvalidData(msg)) = result {
        assert!(msg.contains("no Added entry in calendar_dates.txt"));
        assert!(msg.contains("with matching weekday"));
    } else {
        panic!("Expected InvalidDataError");
    }
}

#[test]
fn test_find_nearest_add_exception_only_deleted_entries() {
    let target = Date::from_ymd_opt(2023, 6, 15).unwrap();
    let calendar_dates = vec![
        create_calendar_date(
            Date::from_ymd_opt(2023, 6, 14).unwrap(),
            Exception::Deleted,
        ),
        create_calendar_date(
            Date::from_ymd_opt(2023, 6, 15).unwrap(),
            Exception::Deleted,
        ),
        create_calendar_date(
            Date::from_ymd_opt(2023, 6, 16).unwrap(),
            Exception::Deleted,
        ),
    ];

    let result = find_nearest_add_exception(&target, &calendar_dates, 5, false);
    assert!(result.is_err());
}

#[test]
fn test_find_nearest_add_exception_empty_calendar_dates() {
    let target = Date::from_ymd_opt(2023, 6, 15).unwrap();
    let calendar_dates: Vec<CalendarDate> = vec![];

    let result = find_nearest_add_exception(&target, &calendar_dates, 5, false);
    assert!(result.is_err());
}

#[test]
fn test_find_nearest_add_exception_equal_distance_picks_earlier() {
    let target = Date::from_ymd_opt(2023, 6, 15).unwrap();
    let calendar_dates = vec![
        create_calendar_date(
            Date::from_ymd_opt(2023, 6, 12).unwrap(),
            Exception::Added,
        ), // 3 days before
        create_calendar_date(
            Date::from_ymd_opt(2023, 6, 18).unwrap(),
            Exception::Added,
        ), // 3 days after
    ];

    let result = find_nearest_add_exception(&target, &calendar_dates, 5, false);
    assert!(result.is_ok());
    // With the reversed ordering, when distances are equal, it should pick the earlier date
    // because of the tie-breaker: other.1.date.cmp(&self.1.date)
    assert_eq!(
        result.unwrap(),
        Date::from_ymd_opt(2023, 6, 12).unwrap()
    );
}

#[test]
fn test_find_nearest_add_exception_tolerance_boundary_behavior() {
    let target = Date::from_ymd_opt(2023, 6, 15).unwrap();
    let calendar_dates = vec![
        create_calendar_date(
            Date::from_ymd_opt(2023, 6, 10).unwrap(),
            Exception::Added,
        ), // Exactly 5 days before
        create_calendar_date(
            Date::from_ymd_opt(2023, 6, 9).unwrap(),
            Exception::Added,
        ), // 6 days before (outside tolerance)
    ];

    // With tolerance 4, the date that is exactly 4 days away should be excluded
    let result = find_nearest_add_exception(&target, &calendar_dates, 4, false);
    assert!(result.is_err()); // 5 days should be outside tolerance

    // But with tolerance 5, it should be included
    let result = find_nearest_add_exception(&target, &calendar_dates, 5, false);
    assert!(result.is_ok());
    assert_eq!(
        result.unwrap(),
        Date::from_ymd_opt(2023, 6, 10).unwrap()
    );
}

// Tests for find_in_calendar
#[test]
fn test_find_in_calendar_target_within_range() {
    let start = Date::from_ymd_opt(2023, 6, 1).unwrap();
    let end = Date::from_ymd_opt(2023, 6, 30).unwrap();
    let target = Date::from_ymd_opt(2023, 6, 15).unwrap();
    let calendar = create_calendar(start, end);

    let result = find_in_calendar(&target, &calendar);
    assert!(result.is_ok());
    assert_eq!(result.unwrap(), target);
}

#[test]
fn test_find_in_calendar_target_at_start() {
    let start = Date::from_ymd_opt(2023, 6, 1).unwrap();
    let end = Date::from_ymd_opt(2023, 6, 30).unwrap();
    let target = start;
    let calendar = create_calendar(start, end);

    let result = find_in_calendar(&target, &calendar);
    assert!(result.is_ok());
    assert_eq!(result.unwrap(), target);
}

#[test]
fn test_find_in_calendar_target_at_end() {
    let start = Date::from_ymd_opt(2023, 6, 1).unwrap();
    let end = Date::from_ymd_opt(2023, 6, 30).unwrap();
    let target = end;
    let calendar = create_calendar(start, end);

    let result = find_in_calendar(&target, &calendar);
    assert!(result.is_ok());
    assert_eq!(result.unwrap(), target);
}

#[test]
fn test_find_in_calendar_target_before_range() {
    let start = Date::from_ymd_opt(2023, 6, 10).unwrap();
    let end = Date::from_ymd_opt(2023, 6, 30).unwrap();
    let target = Date::from_ymd_opt(2023, 6, 5).unwrap(); // Before start
    let calendar = create_calendar(start, end);

    let result = find_in_calendar(&target, &calendar);
    assert!(result.is_err());
    if let Err(ScheduleError::InvalidData(msg)) = result {
        assert!(msg.contains("no calendar.txt dates match"));
        assert!(msg.contains("06-05-2023"));
        assert!(msg.contains("[06-10-2023,06-30-2023]"));
    } else {
        panic!("Expected InvalidDataError");
    }
}

#[test]
fn test_find_in_calendar_target_after_range() {
    let start = Date::from_ymd_opt(2023, 6, 1).unwrap();
    let end = Date::from_ymd_opt(2023, 6, 20).unwrap();
    let target = Date::from_ymd_opt(2023, 6, 25).unwrap(); // After end
    let calendar = create_calendar(start, end);

    let result = find_in_calendar(&target, &calendar);
    assert!(result.is_err());
    if let Err(ScheduleError::InvalidData(msg)) = result {
        assert!(msg.contains("no calendar.txt dates match"));
        assert!(msg.contains("06-25-2023"));
        assert!(msg.contains("[06-01-2023,06-20-2023]"));
    } else {
        panic!("Expected InvalidDataError");
    }
}

#[test]
fn test_find_in_calendar_single_day_range_match() {
    let date = Date::from_ymd_opt(2023, 6, 15).unwrap();
    let calendar = create_calendar(date, date);

    let result = find_in_calendar(&date, &calendar);
    assert!(result.is_ok());
    assert_eq!(result.unwrap(), date);
}

#[test]
fn test_find_in_calendar_single_day_range_no_match() {
    let calendar_date = Date::from_ymd_opt(2023, 6, 15).unwrap();
    let target = Date::from_ymd_opt(2023, 6, 16).unwrap();
    let calendar = create_calendar(calendar_date, calendar_date);

    let result = find_in_calendar(&target, &calendar);
    assert!(result.is_err());
}

// Tests for date_range_intersection
#[test]
fn test_date_range_intersection_target_within_range() {
    let target = Date::from_ymd_opt(2023, 6, 15).unwrap();
    let start = Date::from_ymd_opt(2023, 6, 10).unwrap();
    let end = Date::from_ymd_opt(2023, 6, 20).unwrap();

    let result = date_range_intersection(&target, &start, &end, 3, false).unwrap();

    // Should include dates within 3 days of target that are also in the range, sorted by distance
    let expected = vec![
        Date::from_ymd_opt(2023, 6, 15).unwrap(), // 0 days
        Date::from_ymd_opt(2023, 6, 14).unwrap(), // 1 day before
        Date::from_ymd_opt(2023, 6, 16).unwrap(), // 1 day after
        Date::from_ymd_opt(2023, 6, 13).unwrap(), // 2 days before
        Date::from_ymd_opt(2023, 6, 17).unwrap(), // 2 days after
        Date::from_ymd_opt(2023, 6, 12).unwrap(), // 3 days before
        Date::from_ymd_opt(2023, 6, 18).unwrap(), // 3 days after
    ];
    assert_eq!(result, expected);
}
#[test]
fn test_date_range_intersection_tolerance_zero() {
    let target = Date::from_ymd_opt(2023, 6, 15).unwrap();
    let start = Date::from_ymd_opt(2023, 6, 10).unwrap();
    let end = Date::from_ymd_opt(2023, 6, 20).unwrap();

    let result = date_range_intersection(&target, &start, &end, 0, false).unwrap();

    // Should only include the target date itself
    let expected = vec![target];
    assert_eq!(result, expected);
}

#[test]
fn test_date_range_intersection_no_overlap() {
    let target = Date::from_ymd_opt(2023, 6, 15).unwrap();
    let start = Date::from_ymd_opt(2023, 6, 20).unwrap(); // Range starts after tolerance window
    let end = Date::from_ymd_opt(2023, 6, 30).unwrap();

    let result = date_range_intersection(&target, &start, &end, 3, false).unwrap();

    // No overlap between [2023-06-12, 2023-06-18] and [2023-06-20, 2023-06-30]
    assert!(result.is_empty());
}

#[test]
fn test_date_range_intersection_partial_overlap() {
    let target = Date::from_ymd_opt(2023, 6, 15).unwrap();
    let start = Date::from_ymd_opt(2023, 6, 17).unwrap(); // Range starts partway through tolerance window
    let end = Date::from_ymd_opt(2023, 6, 25).unwrap();

    let result = date_range_intersection(&target, &start, &end, 3, false).unwrap();

    // Overlap is [2023-06-17, 2023-06-18] (only the part of tolerance window that's in range)
    let expected = vec![
        Date::from_ymd_opt(2023, 6, 17).unwrap(), // 2 days after target
        Date::from_ymd_opt(2023, 6, 18).unwrap(), // 3 days after target
    ];
    assert_eq!(result, expected);
}

#[test]
fn test_date_range_intersection_with_weekday_matching() {
    let target = Date::from_ymd_opt(2023, 6, 15).unwrap(); // Thursday
    let start = Date::from_ymd_opt(2023, 6, 1).unwrap();
    let end = Date::from_ymd_opt(2023, 6, 30).unwrap();

    let result = date_range_intersection(&target, &start, &end, 10, true).unwrap();

    // Should only include Thursdays within 10 days of target, sorted by distance
    let expected = vec![
        Date::from_ymd_opt(2023, 6, 15).unwrap(), // Thursday, target (0 days)
        Date::from_ymd_opt(2023, 6, 8).unwrap(),  // Thursday, 7 days before
        Date::from_ymd_opt(2023, 6, 22).unwrap(), // Thursday, 7 days after
    ];
    assert_eq!(result, expected);
}

#[test]
fn test_date_range_intersection_weekday_no_matches() {
    let target = Date::from_ymd_opt(2023, 6, 15).unwrap(); // Thursday
    let start = Date::from_ymd_opt(2023, 6, 12).unwrap(); // Monday
    let end = Date::from_ymd_opt(2023, 6, 14).unwrap(); // Wednesday

    let result = date_range_intersection(&target, &start, &end, 5, true).unwrap();

    // No Thursdays in the range [Monday, Wednesday]
    assert!(result.is_empty());
}

#[test]
fn test_date_range_intersection_range_entirely_before_tolerance() {
    let target = Date::from_ymd_opt(2023, 6, 15).unwrap();
    let start = Date::from_ymd_opt(2023, 6, 1).unwrap();
    let end = Date::from_ymd_opt(2023, 6, 10).unwrap(); // Ends before tolerance window starts

    let result = date_range_intersection(&target, &start, &end, 3, false).unwrap();

    // No overlap between [2023-06-01, 2023-06-10] and [2023-06-12, 2023-06-18]
    assert!(result.is_empty());
}

#[test]
fn test_date_range_intersection_range_entirely_after_tolerance() {
    let target = Date::from_ymd_opt(2023, 6, 15).unwrap();
    let start = Date::from_ymd_opt(2023, 6, 20).unwrap(); // Starts after tolerance window ends
    let end = Date::from_ymd_opt(2023, 6, 30).unwrap();

    let result = date_range_intersection(&target, &start, &end, 3, false).unwrap();

    // No overlap between [2023-06-20, 2023-06-30] and [2023-06-12, 2023-06-18]
    assert!(result.is_empty());
}

#[test]
fn test_date_range_intersection_single_day_range() {
    let target = Date::from_ymd_opt(2023, 6, 15).unwrap();
    let single_day = Date::from_ymd_opt(2023, 6, 17).unwrap(); // 2 days after target

    let result = date_range_intersection(&target, &single_day, &single_day, 3, false).unwrap();

    // Single day range that's within tolerance
    let expected = vec![single_day];
    assert_eq!(result, expected);
}

#[test]
fn test_date_range_intersection_single_day_outside_tolerance() {
    let target = Date::from_ymd_opt(2023, 6, 15).unwrap();
    let single_day = Date::from_ymd_opt(2023, 6, 20).unwrap(); // 5 days after target

    let result = date_range_intersection(&target, &single_day, &single_day, 3, false).unwrap();

    // Single day range that's outside tolerance
    assert!(result.is_empty());
}

#[test]
fn test_date_range_intersection_sorted_by_distance() {
    let target = Date::from_ymd_opt(2023, 6, 15).unwrap();
    let start = Date::from_ymd_opt(2023, 6, 10).unwrap();
    let end = Date::from_ymd_opt(2023, 6, 20).unwrap();

    let result = date_range_intersection(&target, &start, &end, 5, false).unwrap();

    // Results should be sorted by distance from target (closest first)
    let expected = vec![
        Date::from_ymd_opt(2023, 6, 15).unwrap(), // 0 days
        Date::from_ymd_opt(2023, 6, 14).unwrap(), // 1 day before
        Date::from_ymd_opt(2023, 6, 16).unwrap(), // 1 day after
        Date::from_ymd_opt(2023, 6, 13).unwrap(), // 2 days before
        Date::from_ymd_opt(2023, 6, 17).unwrap(), // 2 days after
        Date::from_ymd_opt(2023, 6, 12).unwrap(), // 3 days before
        Date::from_ymd_opt(2023, 6, 18).unwrap(), // 3 days after
        Date::from_ymd_opt(2023, 6, 11).unwrap(), // 4 days before
        Date::from_ymd_opt(2023, 6, 19).unwrap(), // 4 days after
        Date::from_ymd_opt(2023, 6, 10).unwrap(), // 5 days before
        Date::from_ymd_opt(2023, 6, 20).unwrap(), // 5 days after
    ];
    assert_eq!(result, expected);
}

#[test]
fn test_date_range_intersection_year_boundary() {
    let target = Date::from_ymd_opt(2023, 12, 30).unwrap();
    let start = Date::from_ymd_opt(2023, 12, 28).unwrap();
    let end = Date::from_ymd_opt(2024, 1, 5).unwrap(); // Crosses year boundary

    let result = date_range_intersection(&target, &start, &end, 3, false).unwrap();

    // Should handle year boundary correctly
    let expected = vec![
        Date::from_ymd_opt(2023, 12, 30).unwrap(), // 0 days
        Date::from_ymd_opt(2023, 12, 29).unwrap(), // 1 day before
        Date::from_ymd_opt(2023, 12, 31).unwrap(), // 1 day after
        Date::from_ymd_opt(2023, 12, 28).unwrap(), // 2 days before
        Date::from_ymd_opt(2024, 1, 1).unwrap(),   // 2 days after
        Date::from_ymd_opt(2024, 1, 2).unwrap(),   // 3 days after
    ];
    assert_eq!(result, expected);
}

#[test]
fn test_date_range_intersection_leap_year() {
    let target = Date::from_ymd_opt(2024, 2, 28).unwrap(); // 2024 is a leap year
    let start = Date::from_ymd_opt(2024, 2, 27).unwrap();
    let end = Date::from_ymd_opt(2024, 3, 2).unwrap();

    let result = date_range_intersection(&target, &start, &end, 3, false).unwrap();

    // Should handle leap year correctly
    let expected = vec![
        Date::from_ymd_opt(2024, 2, 28).unwrap(), // 0 days
        Date::from_ymd_opt(2024, 2, 27).unwrap(), // 1 day before
        Date::from_ymd_opt(2024, 2, 29).unwrap(), // 1 day after (leap day)
        Date::from_ymd_opt(2024, 3, 1).unwrap(),  // 2 days after
        Date::from_ymd_opt(2024, 3, 2).unwrap(),  // 3 days after
    ];
    assert_eq!(result, expected);
}
