use trainstatus::alerts::{AlertData, AlertSection, MtaSubwayAlerts, NjtBusAlerts};
use trainstatus::feed::{
    EntitySelector, GtfsAlert, MercuryAlert, MercuryEntitySelector, TimeRange, TranslatedString,
    Translation,
};
use trainstatus::ids::AlertFormat;
use trainstatus::source::Source;

fn tr(text: &str, language: Option<&str>) -> Translation {
    Translation { text: text.to_string(), language: language.map(|l| l.to_string()) }
}

fn entity(route: Option<&str>, stop: Option<&str>, sort: Option<&str>) -> EntitySelector {
    EntitySelector {
        route_id: route.map(|s| s.to_string()),
        stop_id: stop.map(|s| s.to_string()),
        mercury_entity_selector: sort.map(|s| MercuryEntitySelector { sort_order: s.to_string() }),
    }
}

fn mta_alert() -> GtfsAlert {
    GtfsAlert {
        active_period: vec![
            TimeRange { start: Some(1_700_000_000), end: Some(1_700_003_600) },
            TimeRange { start: None, end: Some(1_700_007_200) },
            TimeRange { start: Some(1_700_010_000), end: None },
        ],
        informed_entity: vec![
            entity(Some("SS"), None, Some("MTASBWY:SS:20")),
            entity(Some("6"), Some("631N"), Some("MTASBWY:6:x")),
            entity(None, Some("S12"), None),
        ],
        header_text: Some(TranslatedString {
            translation: vec![tr("Delays", Some("en")), tr("<p>Delays</p>", Some("en-html"))],
        }),
        description_text: Some(TranslatedString { translation: vec![tr("Signal problems", None)] }),
        mercury_alert: Some(MercuryAlert {
            created_at: 1_699_999_000,
            updated_at: 1_699_999_500,
            alert_type: "Delays".to_string(),
            display_before_active: Some(3600),
            clone_id: None,
        }),
    }
}

#[test]
fn mta_route_and_stop_ids_are_normalized() {
    let a = MtaSubwayAlerts;
    assert_eq!(a.parse_route_id("SS".to_string()), Some("SI".to_string()));
    assert_eq!(a.parse_route_id("SI".to_string()), Some("SI".to_string()));
    assert_eq!(a.parse_route_id("6".to_string()), Some("6".to_string()));
    assert_eq!(a.parse_stop_id("631N".to_string()), Some("631".to_string()));
    assert_eq!(a.parse_stop_id("631S".to_string()), Some("631".to_string()));
    assert_eq!(a.parse_stop_id("631".to_string()), Some("631".to_string()));
    assert_eq!(a.parse_stop_id("S12N".to_string()), None, "a stop that does not exist");
}

#[test]
fn mta_alert_is_stored_with_its_translations_periods_and_entities() {
    let p = MtaSubwayAlerts.process_alert_at("lmm:alert:1".to_string(), mta_alert(), 42, 1_700_000_100);
    let (alert, translations, periods, entities) = p.expect("an alert with the MTA extension");
    assert_eq!(alert.id, 42);
    assert_eq!(alert.original_id, "lmm:alert:1");
    assert_eq!(alert.source, Source::MtaSubway);
    assert_eq!(alert.created_at, 1_699_999_000);
    assert_eq!(alert.updated_at, 1_699_999_500);
    assert_eq!(alert.recorded_at, 1_700_000_100);
    match &alert.data {
        AlertData::MtaSubway(d) => {
            assert_eq!(d.display_before_active, 3600);
            assert_eq!(d.alert_type, "Delays");
            assert_eq!(d.clone_id, None);
        }
        _ => panic!("MTA data expected"),
    }

    assert_eq!(translations.len(), 3);
    assert_eq!(translations[0].section, AlertSection::Header);
    assert_eq!(translations[0].format, AlertFormat::Plain);
    assert_eq!(translations[0].language, "en");
    assert_eq!(translations[1].format, AlertFormat::Html);
    assert_eq!(translations[1].language, "en");
    assert_eq!(translations[1].text, "<p>Delays</p>");
    assert_eq!(translations[2].section, AlertSection::Description);
    assert_eq!(translations[2].language, "en", "no language means English");

    let ps: Vec<(i64, Option<i64>)> = periods.iter().map(|p| (p.start_time, p.end_time)).collect();
    assert_eq!(
        ps,
        vec![(1_700_000_000, Some(1_700_003_600)), (1_700_010_000, None)],
        "a period without a start is dropped"
    );
    assert!(periods.iter().all(|p| p.alert_id == 42));

    assert_eq!(entities.len(), 3);
    assert_eq!(entities[0].route_id, Some("SI".to_string()));
    assert_eq!(entities[0].sort_order, 20);
    assert_eq!(entities[1].stop_id, Some("631".to_string()));
    assert_eq!(entities[1].sort_order, 0, "a sort order that is no number");
    assert_eq!(entities[2].route_id, None);
    assert_eq!(entities[2].stop_id, None);
    assert!(entities.iter().all(|e| e.source == Source::MtaSubway));
}

#[test]
fn mta_alert_without_extension_is_skipped() {
    let mut a = mta_alert();
    a.mercury_alert = None;
    assert!(MtaSubwayAlerts.process_alert_at("x".to_string(), a, 1, 0).is_none());
    let mut b = mta_alert();
    b.mercury_alert.as_mut().unwrap().created_at = 9_000_000_000_000;
    assert!(MtaSubwayAlerts.process_alert_at("x".to_string(), b, 1, 0).is_none());
    let c = MtaSubwayAlerts.process_alert("x".to_string(), mta_alert()).expect("kept");
    assert_eq!(c.0.original_id, "x");
    assert_eq!(c.1.len(), 3);
}

fn njt_alert() -> GtfsAlert {
    GtfsAlert {
        active_period: vec![TimeRange { start: Some(1_700_000_000), end: Some(1_700_086_400) }],
        informed_entity: vec![
            entity(Some("163"), None, None),
            entity(None, None, None),
            entity(None, Some("31858"), None),
        ],
        header_text: Some(TranslatedString { translation: vec![tr("ignored", None)] }),
        description_text: Some(TranslatedString {
            translation: vec![tr("Detour on Route 163", None), tr("Desvío", Some("es"))],
        }),
        mercury_alert: None,
    }
}

#[test]
fn njt_alert_keeps_descriptions_and_named_entities() {
    let (alert, translations, periods, entities) = NjtBusAlerts
        .process_alert_at("njt-1".to_string(), njt_alert(), 7, 1_700_000_500)
        .expect("a complete alert");
    assert_eq!(alert.source, Source::NjtBus);
    assert_eq!(alert.created_at, 1_700_000_000, "the first period's start");
    assert_eq!(alert.updated_at, 1_700_000_500);
    assert_eq!(alert.recorded_at, 1_700_000_500);
    assert!(matches!(alert.data, AlertData::NjtBus));
    assert_eq!(translations.len(), 2);
    assert!(translations.iter().all(|t| t.section == AlertSection::Description
        && t.format == AlertFormat::Plain));
    assert_eq!(translations[0].language, "en");
    assert_eq!(translations[1].language, "es");
    assert_eq!(periods.len(), 1);
    assert_eq!(periods[0].end_time, Some(1_700_086_400));
    assert_eq!(entities.len(), 2, "an entity naming nothing is dropped");
    assert_eq!(entities[0].route_id, Some("163".to_string()));
    assert_eq!(entities[1].stop_id, Some("31858".to_string()));
    assert!(entities.iter().all(|e| e.sort_order == 0 && e.source == Source::NjtBus));
}

#[test]
fn njt_alert_without_start_or_description_is_skipped() {
    let mut a = njt_alert();
    a.active_period[0].start = None;
    assert!(NjtBusAlerts.process_alert_at("x".to_string(), a, 1, 0).is_none());
    let mut b = njt_alert();
    b.description_text = None;
    assert!(NjtBusAlerts.process_alert_at("x".to_string(), b, 1, 0).is_none());
    let mut c = njt_alert();
    c.active_period.clear();
    assert!(NjtBusAlerts.process_alert_at("x".to_string(), c, 1, 0).is_none());
    assert!(NjtBusAlerts.process_alert("x".to_string(), njt_alert()).is_some());
}
