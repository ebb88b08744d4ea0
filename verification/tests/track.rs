use motoreel::{check_key_times, ease_span, ObjectId, RecordError, ScreenAnchor, TrackError};

/// The verdict on key times, from the times themselves.
fn verdict(times: &[f64]) -> Result<(), TrackError> {
    let finite: Vec<bool> = times.iter().map(|t| t.is_finite()).collect();
    let ordered: Vec<bool> = times.windows(2).map(|w| w[0] < w[1]).collect();
    check_key_times(&finite, &ordered)
}

#[test]
fn no_keys_is_the_empty_error() {
    assert_eq!(verdict(&[]), Err(TrackError::Empty));
}

#[test]
fn equal_and_decreasing_times_name_the_second_key() {
    assert_eq!(verdict(&[1.0, 1.0]), Err(TrackError::NonIncreasing { index: 1 }));
    assert_eq!(verdict(&[2.0, 1.0]), Err(TrackError::NonIncreasing { index: 1 }));
    assert_eq!(
        verdict(&[0.0, 1.0, 1.0, 3.0]),
        Err(TrackError::NonIncreasing { index: 2 })
    );
    assert_eq!(verdict(&[0.0, 1.0, 2.0]), Ok(()));
    assert_eq!(verdict(&[5.0]), Ok(()));
}

#[test]
fn non_finite_times_are_reported_at_their_own_index() {
    let cases: [(&[f64], usize); 6] = [
        (&[f64::NAN], 0),
        (&[f64::NAN, 1.0], 0),
        (&[0.0, f64::NAN, 2.0], 1),
        (&[0.0, 1.0, f64::NAN], 2),
        (&[0.0, f64::INFINITY], 1),
        (&[f64::NEG_INFINITY, 1.0], 0),
    ];
    for (times, want) in cases {
        assert_eq!(verdict(times), Err(TrackError::NonIncreasing { index: want }));
    }
    // The first key that breaks the chain is reported, whichever way it
    // breaks it: an earlier ordering violation wins over a later
    // non-finite time, and an earlier non-finite time over a later pair.
    assert_eq!(
        verdict(&[2.0, 1.0, f64::NAN]),
        Err(TrackError::NonIncreasing { index: 1 })
    );
    assert_eq!(
        verdict(&[0.0, 2.0, 1.0, f64::NAN]),
        Err(TrackError::NonIncreasing { index: 2 })
    );
    assert_eq!(
        verdict(&[0.0, f64::NAN, 2.0, 1.0]),
        Err(TrackError::NonIncreasing { index: 1 })
    );
}

#[test]
fn ease_span_sets_exactly_one_span() {
    let mut eases = vec!['l', 'l'];
    assert!(ease_span(&mut eases, 0, 's').is_ok());
    assert_eq!(eases, vec!['s', 'l']);
    assert!(ease_span(&mut eases, 1, 'm').is_ok());
    assert_eq!(eases, vec!['s', 'm']);
    assert_eq!(
        ease_span(&mut eases, 2, 'x'),
        Err(TrackError::NoSuchSpan { index: 2 })
    );
    assert_eq!(
        ease_span(&mut eases, usize::MAX, 'x'),
        Err(TrackError::NoSuchSpan { index: usize::MAX })
    );
    assert_eq!(eases, vec!['s', 'm'], "a refused edit changes nothing");
    let mut none: Vec<char> = Vec::new();
    assert_eq!(
        ease_span(&mut none, 0, 'x'),
        Err(TrackError::NoSuchSpan { index: 0 })
    );
}

#[test]
fn track_errors_read_as_prose() {
    assert_eq!(TrackError::Empty.to_string(), "track needs at least one key");
    assert_eq!(
        TrackError::NonIncreasing { index: 7 }.to_string(),
        "key time at index 7 is not finite or not greater than its predecessor"
    );
    assert_eq!(TrackError::NoSuchSpan { index: 3 }.to_string(), "track has no span 3");
    assert!(!TrackError::InvalidSpin.to_string().is_empty());
}

#[test]
fn record_error_display_error_source_and_from() {
    let invalid = RecordError::InvalidTimestep;
    let wrapped = RecordError::Track(TrackError::NonIncreasing { index: 2 });

    assert_eq!(
        RecordError::from(TrackError::NonIncreasing { index: 2 }),
        wrapped,
        "From<TrackError> wraps into the Track arm"
    );

    for err in [invalid, wrapped] {
        let shown = err.to_string();
        assert!(!shown.is_empty(), "{err:?} must Display as something");
        assert!(
            !shown.contains("RecordError"),
            "{err:?}: Display is prose, not the Debug spelling — got {shown:?}"
        );
    }
    assert_ne!(
        invalid.to_string(),
        wrapped.to_string(),
        "the two arms must not read alike"
    );

    let source = wrapped
        .source()
        .expect("the Track arm exposes its inner TrackError as its source");
    assert_eq!(
        source.to_string(),
        TrackError::NonIncreasing { index: 2 }.to_string(),
        "source() is the inner TrackError"
    );
    assert!(
        invalid.source().is_none(),
        "InvalidTimestep wraps nothing, so it has no source"
    );
    assert_eq!(
        wrapped.to_string(),
        "recorded keys did not form a track: key time at index 2 is not finite or not greater than its predecessor"
    );
}

#[test]
fn add_preserves_insertion_order_with_distinct_ids() {
    let mut objects: Vec<&str> = Vec::new();
    let a = ObjectId::append(&mut objects, "first");
    let b = ObjectId::append(&mut objects, "second");
    assert_ne!(a, b);
    assert_eq!(objects, vec!["first", "second"]);
    assert_eq!((a.index(), b.index()), (0, 1));
}

#[test]
fn screen_anchors_are_nine_distinct_positions() {
    let all = [
        ScreenAnchor::TopLeft,
        ScreenAnchor::TopCentre,
        ScreenAnchor::TopRight,
        ScreenAnchor::MidLeft,
        ScreenAnchor::Centre,
        ScreenAnchor::MidRight,
        ScreenAnchor::BottomLeft,
        ScreenAnchor::BottomCentre,
        ScreenAnchor::BottomRight,
    ];
    for (i, a) in all.iter().enumerate() {
        for (j, b) in all.iter().enumerate() {
            assert_eq!(i == j, a == b);
        }
    }
}
