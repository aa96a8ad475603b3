use trainstatus::calendar::TimeOfDay;
use trainstatus::clock::from_timestamp;
use trainstatus::color::parse_color;
use trainstatus::models::{CompassDirection, MtaBusStopData, StopData};
use trainstatus::njt_patterns::{
    append_page, pattern_candidates, pattern_direction, trip_patterns, PageError, PatternRejection, PatternAttributes,
    PatternFeature, PatternPage, PatternTrip,
};
use trainstatus::num::{decimal_string, parse_i16, parse_i32, parse_u32, parse_u64};
use trainstatus::source::{
    round_to_5min_bucket, source_projected_epsg_code, source_supports_trajectories, Source,
};
use trainstatus::text::{normalize_title, normalize_whitespace, split_ws, str_chars};
use trainstatus::trajectory::{
    bump_platform_static_version, hist_key, platform_hint, platform_match_key, sort_strings, ContinuityDiscardReason,
    ContinuityStats, ContinuityStatsBatch, ScheduleStopBuilder,
};

fn chars(s: &str) -> Vec<char> {
    s.chars().collect()
}

#[test]
fn whitespace_is_trimmed_and_collapsed() {
    assert_eq!(normalize_whitespace("  Main \t St \n"), "Main St");
    assert_eq!(normalize_whitespace(""), "");
    assert_eq!(normalize_whitespace("   "), "");
    let once = normalize_whitespace(" a  b ");
    assert_eq!(normalize_whitespace(&once), once);
    let value = "\u{3000}Grand\u{a0}\u{a0}Central \t 42\n";
    let r = normalize_whitespace(value);
    assert_eq!(r, "Grand Central 42");
    assert!(r.split_whitespace().eq(value.split_whitespace()));
    assert!(r.chars().all(|c| !c.is_whitespace() || c == ' '));
    assert!(!r.starts_with(' ') && !r.ends_with(' ') && !r.contains("  "));
}

#[test]
fn titles_are_collapsed_then_title_cased() {
    assert_eq!(normalize_title("  JAMAICA   CENTER "), "Jamaica Center");
    assert_eq!(normalize_title("via  broadway"), "Via Broadway");
}

#[test]
fn splitting_on_white_space() {
    let parts = split_ws(&chars(" ab  c "));
    assert_eq!(parts, vec![chars("ab"), chars("c")]);
    assert_eq!(str_chars("xy"), chars("xy"));
}

#[test]
fn numbers_parse_within_their_types() {
    assert_eq!(parse_i32(&chars("-42")), Some(-42));
    assert_eq!(parse_i32(&chars("+7")), Some(7));
    assert_eq!(parse_i32(&chars("2147483648")), None);
    assert_eq!(parse_i32(&chars("")), None);
    assert_eq!(parse_i32(&chars("1a")), None);
    assert_eq!(parse_i16(&chars("32767")), Some(32767));
    assert_eq!(parse_i16(&chars("32768")), None);
    assert_eq!(parse_u32(&chars("-1")), None);
    assert_eq!(parse_u64(&chars("18446744073709551615")), Some(u64::MAX));
}

#[test]
fn decimal_text_round_trips() {
    assert_eq!(decimal_string(0), "0");
    assert_eq!(decimal_string(-305), "-305");
    assert_eq!(decimal_string(i64::MIN), i64::MIN.to_string());
    for n in [0i64, 9, 10, -1, 123456, i64::MAX] {
        let text = decimal_string(n);
        assert_eq!(text.parse::<i64>().unwrap(), n);
    }
    assert_eq!(parse_i32(&chars(&decimal_string(-2147483648))), Some(i32::MIN));
}

#[test]
fn timestamps_and_times_of_day() {
    assert_eq!(from_timestamp(0), Some(0));
    assert_eq!(from_timestamp(1_700_000_000), Some(1_700_000_000));
    assert_eq!(from_timestamp(i64::MAX), None);
    assert_eq!(from_timestamp(i64::MIN), None);
    assert_eq!(TimeOfDay::from_total_seconds(-1), TimeOfDay { secs: 86399 });
    assert_eq!(TimeOfDay::from_total_seconds(86400 + 5), TimeOfDay { secs: 5 });
    assert_eq!(TimeOfDay::from_hms(24, 0, 0), None);
    assert_eq!(TimeOfDay::from_hms(7, 5, 30), Some(TimeOfDay { secs: 25530 }));
    assert_eq!(TimeOfDay::midnight(), TimeOfDay { secs: 0 });
}

#[test]
fn sources_and_buckets() {
    assert_eq!(source_projected_epsg_code(Source::NjtBus), 6538);
    assert!(source_supports_trajectories(Source::MtaSubway));
    assert_eq!(round_to_5min_bucket(1_000), 900);
    assert_eq!(round_to_5min_bucket(-1_000), -900);
    let k = hist_key(Source::MtaBus, 601);
    assert_eq!(k.bucket_unix, 600);
    assert_eq!(k.source, Source::MtaBus);
}

#[test]
fn colors_parse_as_hex_channels() {
    assert_eq!(parse_color("#FF8000"), [255, 128, 0]);
    assert_eq!(parse_color("00933c"), [0, 147, 60]);
    assert_eq!(parse_color("#zz0000"), [128, 0, 0]);
    assert_eq!(parse_color("#abc"), [128, 128, 128]);
}

#[test]
fn platform_version_wraps() {
    let mut v = 5u64;
    bump_platform_static_version(&mut v);
    assert_eq!(v, 6);
    let mut v = u64::MAX;
    bump_platform_static_version(&mut v);
    assert_eq!(v, 0);
}

#[test]
fn platform_hint_is_sorted_upper_case() {
    assert_eq!(platform_hint(&vec!["b2".to_string(), "a1".to_string()]), Some("A1,B2".to_string()));
    assert_eq!(platform_hint(&vec![]), None);
    assert_eq!(
        sort_strings(vec!["b".to_string(), "a".to_string(), "b".to_string()]),
        vec!["a".to_string(), "b".to_string(), "b".to_string()]
    );
}

#[test]
fn continuity_batch_counts_reasons() {
    let mut batch = ContinuityStatsBatch::new();
    let stats = ContinuityStats {
        knots_in: 10,
        knots_out: 7,
        prev_state_discarded: true,
        discard_reason: Some(ContinuityDiscardReason::BackwardGap),
        live_anchor_gap_m: Some(12.5f64.to_bits()),
        pre_anchor_knots_dropped: 1,
        backtracking_knots_removed: 2,
    };
    assert_eq!(stats.knots_removed(), 3);
    batch.record(stats, true);
    batch.record(stats, false);
    assert_eq!(batch.trips_with_prev_state, 1);
    assert_eq!(batch.prev_state_discarded, 1);
    assert_eq!(batch.backward_gap_discarded, 1);
    assert_eq!(batch.stale_prev_state_discarded, 0);
    assert_eq!(batch.knots_in, 20);
    assert_eq!(batch.knots_removed(), 6);
    assert_eq!(batch.trips_with_live_anchor, 2);
}

#[test]
fn schedule_builder_matches_its_own_stops() {
    let b = ScheduleStopBuilder::mta_bus();
    assert_eq!(b.source(), Source::MtaBus);
    let data = StopData::MtaBus(MtaBusStopData {
        bearing: None,
        is_boardable: true,
        direction: CompassDirection::Unknown,
    });
    assert!(b.stop_matches(&data));
    assert!(!ScheduleStopBuilder::njt_bus().stop_matches(&data));
}

fn feature(objectid: u64) -> PatternFeature {
    PatternFeature {
        attributes: PatternAttributes { objectid, bus_pattern: None, route_dir: None, line: None, id: None },
        geometry: None,
    }
}

#[test]
fn pagination_rejects_errors_duplicates_and_nonprogress() {
    let features = vec![feature(1), feature(2), feature(3)];
    let mut all = Vec::new();
    assert!(append_page(
        &mut all,
        PatternPage { features: features[..1].to_vec(), exceeded_transfer_limit: true, error: None }
    )
    .unwrap());
    assert!(!append_page(
        &mut all,
        PatternPage { features: features[1..].to_vec(), exceeded_transfer_limit: false, error: None }
    )
    .unwrap());
    assert!(append_page(&mut all, PatternPage { features: vec![], exceeded_transfer_limit: true, error: None })
        .is_err());
    assert!(append_page(
        &mut all,
        PatternPage {
            features: vec![],
            exceeded_transfer_limit: false,
            error: Some("{\"code\":500}".to_string())
        }
    )
    .is_err());
    assert!(append_page(&mut all, PatternPage { features, exceeded_transfer_limit: false, error: None }).is_err());
}

#[test]
fn refused_pages_leave_features_unchanged() {
    let mut all = vec![feature(5)];
    let r = append_page(&mut all, PatternPage { features: vec![feature(5)], exceeded_transfer_limit: false, error: None });
    assert_eq!(r.unwrap_err(), PageError::Unordered);
    assert_eq!(all.len(), 1);
    let r = append_page(&mut all, PatternPage { features: vec![], exceeded_transfer_limit: true, error: None });
    assert_eq!(r.unwrap_err(), PageError::NoProgress);
    let r = append_page(
        &mut all,
        PatternPage { features: vec![feature(9)], exceeded_transfer_limit: false, error: Some("x".to_string()) },
    );
    assert_eq!(r.unwrap_err(), PageError::Service("x".to_string()));
    assert_eq!(all.len(), 1);
}

fn feature_dir(objectid: u64, route_dir: Option<&str>) -> PatternFeature {
    let mut f = feature(objectid);
    f.attributes.route_dir = route_dir.map(str::to_string);
    f
}

#[test]
fn patterns_need_one_feature_and_matching_directions() {
    assert_eq!(pattern_direction(&vec![], &vec![Some(0)]), Err(PatternRejection::Absent));
    assert_eq!(
        pattern_direction(&vec![feature_dir(1, Some("1O")), feature_dir(2, Some("1O"))], &vec![]),
        Err(PatternRejection::Duplicate)
    );
    assert_eq!(pattern_direction(&vec![feature_dir(1, Some("1X"))], &vec![]), Err(PatternRejection::UnknownDirection));
    assert_eq!(pattern_direction(&vec![feature_dir(1, None)], &vec![]), Err(PatternRejection::UnknownDirection));
    assert_eq!(
        pattern_direction(&vec![feature_dir(1, Some("158I"))], &vec![Some(1), None]),
        Err(PatternRejection::DirectionMismatch)
    );
    assert_eq!(pattern_direction(&vec![feature_dir(1, Some("158I"))], &vec![Some(1), Some(1)]), Ok(1));
    assert_eq!(pattern_direction(&vec![feature_dir(1, Some("158O"))], &vec![]), Ok(0));
}

fn ptrip(id: &str, route: &str, direction: Option<i16>, shape: Option<&str>) -> PatternTrip {
    PatternTrip {
        id: id.to_string(),
        route_key: route.to_string(),
        direction_id: direction,
        shape_key: shape.map(str::to_string),
    }
}

#[test]
fn patterns_are_matched_to_trips_by_shape_id() {
    let features = vec![
        feature_dir(1, Some("158O")),
        feature_dir(2, Some("1I")),
        feature_dir(3, Some("1I")),
        feature_dir(4, Some("5O")),
        feature_dir(5, Some("9O")),
    ];
    let keys = vec![Some("P2".to_string()), Some("P1".to_string()), Some("P1".to_string()), Some("P3".to_string()), Some(String::new())];
    let trips = vec![
        ptrip("t1", "158", Some(0), Some("P2")),
        ptrip("t2", "1", Some(1), Some("P1")),
        ptrip("t3", "5", Some(1), Some("P3")),
        ptrip("t4", "158", Some(0), Some("P2")),
        ptrip("t5", "9", None, Some("P4")),
        ptrip("t6", "7", None, None),
    ];
    let c = pattern_candidates(&features, &keys, &trips);
    let ids: Vec<&str> = c.iter().map(|x| x.id.as_str()).collect();
    assert_eq!(ids, vec!["P1", "P2", "P3", "P4"]);
    assert_eq!(c[0].decision, Err(PatternRejection::Duplicate));
    assert_eq!(c[1].decision, Ok((0, 0)));
    assert_eq!(c[1].trips, vec![0, 3]);
    assert_eq!(c[2].decision, Err(PatternRejection::DirectionMismatch));
    assert_eq!(c[3].decision, Err(PatternRejection::Absent));

    let accepted = vec!["P2".to_string()];
    let p = trip_patterns(&trips, &accepted);
    assert_eq!(p.len(), 6);
    assert_eq!(p[0].0, "t1");
    assert_eq!(p[0].1.shape_id, Some("P2".to_string()));
    assert_eq!(p[0].1.route_id, "158");
    assert_eq!(p[1].1.shape_id, None);
    assert_eq!(p[1].1.direction, 1);
    assert_eq!(p[5].1.direction, 0, "no direction: 0");
    assert_eq!(p[5].1.shape_id, None);
}

#[test]
fn bumping_the_platform_version_changes_every_key() {
    let ids = vec!["pe2".to_string(), "PE1".to_string()];
    let mut version = 1u64;
    let before = platform_match_key(trainstatus::source::Source::MtaSubway, "631", 1, 510, &ids, version);
    assert_eq!(before.platform_hint, Some("PE1,PE2".to_string()));
    assert_eq!(before.consist_length_ft, 510);
    bump_platform_static_version(&mut version);
    let after = platform_match_key(trainstatus::source::Source::MtaSubway, "631", 1, 510, &ids, version);
    assert_eq!(after.static_version, 2);
    assert_ne!(after, before);
    let mut top = u64::MAX;
    bump_platform_static_version(&mut top);
    assert_eq!(top, 0);
}
