//! Service alerts of the MTA subway and NJ Transit bus feeds.
use vstd::prelude::*;

use crate::clock::{from_timestamp, new_id, now_unix, utc_from_secs};
use crate::feed::{EntitySelector, GtfsAlert, MercuryEntitySelector, TimeRange, Translation};
use crate::ids::{
    after_last, clone_opt_string, fake_stop_id, fold_sir, is_fake_stop_id, last_piece,
    mta_language, opt_string_view, parse_mta_language, split_express_route_id, without_direction,
    AlertFormat,
};
use crate::num::{parse_i32, parse_int_spec};
use crate::source::Source;
use crate::text::{str_chars, string_from_chars};

verus! {

/// Which part of an alert a translation belongs to.
#[derive(Clone, Copy, Debug, PartialEq, Eq, Structural)]
pub enum AlertSection {
    Header,
    Description,
}

/// Data that only MTA subway alerts carry.
pub struct MtaData {
    pub display_before_active: i32,
    pub alert_type: String,
    pub clone_id: Option<String>,
}

/// Source-specific alert data.
pub enum AlertData {
    MtaSubway(MtaData),
    NjtBus,
}

/// An alert as stored; instants are unix seconds.
pub struct Alert {
    pub id: u128,
    pub original_id: String,
    pub source: Source,
    pub created_at: i64,
    pub updated_at: i64,
    pub recorded_at: i64,
    pub data: AlertData,
}

/// One translation of an alert's header or description.
pub struct AlertTranslation {
    pub alert_id: u128,
    pub section: AlertSection,
    pub format: AlertFormat,
    pub language: String,
    pub text: String,
}

/// When an alert is active; instants are unix seconds.
pub struct ActivePeriod {
    pub alert_id: u128,
    pub start_time: i64,
    pub end_time: Option<i64>,
}

/// A route or stop that an alert concerns.
pub struct AffectedEntity {
    pub alert_id: u128,
    pub route_id: Option<String>,
    pub source: Source,
    pub stop_id: Option<String>,
    pub sort_order: i32,
}

/// A processed alert with its translations, active periods and entities.
pub type ParsedAlert = (Alert, Vec<AlertTranslation>, Vec<ActivePeriod>, Vec<AffectedEntity>);

/// The translations of an optional translated string (none when absent).
pub open spec fn translations_of(t: Option<crate::feed::TranslatedString>) -> Seq<Translation> {
    match t {
        Some(ts) => ts.translation@,
        None => Seq::empty(),
    }
}

/// A stored translation made from a feed translation, MTA-style: the
/// language tag decides the format.
pub open spec fn mta_translation(
    r: AlertTranslation,
    alert_id: u128,
    section: AlertSection,
    t: Translation,
) -> bool {
    &&& r.alert_id == alert_id
    &&& r.section == section
    &&& r.format == mta_language(opt_string_view(t.language)).0
    &&& r.language@ == mta_language(opt_string_view(t.language)).1
    &&& r.text == t.text
}

/// A stored translation made from a feed translation, NJ Transit-style:
/// plain text, language `en` when the feed names none.
pub open spec fn njt_translation(r: AlertTranslation, alert_id: u128, t: Translation) -> bool {
    &&& r.alert_id == alert_id
    &&& r.section == AlertSection::Description
    &&& r.format == AlertFormat::Plain
    &&& r.language@ == (match t.language {
        Some(l) => l@,
        None => seq!['e', 'n'],
    })
    &&& r.text == t.text
}

/// The active periods kept from a feed: those whose start is present and
/// representable, each with its end when that is present and representable.
pub open spec fn kept_periods(aps: Seq<TimeRange>) -> Seq<(i64, Option<i64>)>
    decreases aps.len(),
{
    if aps.len() == 0 {
        Seq::empty()
    } else {
        let prev = kept_periods(aps.drop_last());
        let ap = aps.last();
        match ap.start {
            Some(s) => match utc_from_secs((s as i64) as int) {
                Some(st) => prev.push(
                    (
                        st,
                        match ap.end {
                            Some(e) => utc_from_secs((e as i64) as int),
                            None => None,
                        },
                    ),
                ),
                None => prev,
            },
            None => prev,
        }
    }
}

/// The stored active periods match the periods kept from the feed.
pub open spec fn periods_match(r: Seq<ActivePeriod>, alert_id: u128, aps: Seq<TimeRange>) -> bool {
    let k = kept_periods(aps);
    &&& r.len() == k.len()
    &&& forall|i: int|
        0 <= i < r.len() ==> (#[trigger] r[i]).alert_id == alert_id && (r[i].start_time, r[i].end_time)
            == k[i]
}

/// How the MTA's alert feed names a route: `SS` is stored as `SI`.
pub open spec fn mta_alert_route(route_id: Seq<char>) -> Option<Seq<char>> {
    Some(fold_sir(route_id))
}

/// How the MTA's alert feed names a stop: without its direction letter, and
/// not at all when it is one of the non-existent stops.
pub open spec fn mta_alert_stop(stop_id: Seq<char>) -> Option<Seq<char>> {
    let s = without_direction(stop_id);
    if is_fake_stop_id(s) {
        None
    } else {
        Some(s)
    }
}

/// The sort order of an informed entity: the integer after the last `:` of
/// its selector's sort order, 0 when absent or not an `i32`.
pub open spec fn sort_order_of(sel: Option<MercuryEntitySelector>) -> i32 {
    match sel {
        Some(s) => match parse_int_spec(
            after_last(s.sort_order@, ':'),
            true,
            i32::MIN as int,
            i32::MAX as int,
        ) {
            Some(v) => v as i32,
            None => 0,
        },
        None => 0,
    }
}

/// A stored MTA entity made from a feed entity.
pub open spec fn mta_entity(r: AffectedEntity, alert_id: u128, e: EntitySelector) -> bool {
    &&& r.alert_id == alert_id
    &&& r.source == Source::MtaSubway
    &&& opt_string_view(r.route_id) == (match e.route_id {
        Some(x) => mta_alert_route(x@),
        None => None,
    })
    &&& opt_string_view(r.stop_id) == (match e.stop_id {
        Some(x) => mta_alert_stop(x@),
        None => None,
    })
    &&& r.sort_order == sort_order_of(e.mercury_entity_selector)
}

/// The feed entities that name a route or a stop.
pub open spec fn named_entities(es: Seq<EntitySelector>) -> Seq<EntitySelector> {
    es.filter(|e: EntitySelector| e.route_id is Some || e.stop_id is Some)
}

/// A stored NJ Transit entity made from a feed entity.
pub open spec fn njt_entity(r: AffectedEntity, alert_id: u128, e: EntitySelector) -> bool {
    &&& r.alert_id == alert_id
    &&& r.source == Source::NjtBus
    &&& r.route_id == e.route_id
    &&& r.stop_id == e.stop_id
    &&& r.sort_order == 0
}

/// The first active period's start, when present and representable.
pub open spec fn first_start(aps: Seq<TimeRange>) -> Option<i64> {
    if aps.len() > 0 {
        match aps[0].start {
            Some(s) => utc_from_secs((s as i64) as int),
            None => None,
        }
    } else {
        None
    }
}

/// The stored active periods of an alert.
fn collect_periods(alert_id: u128, aps: &Vec<TimeRange>) -> (r: Vec<ActivePeriod>)
    ensures
        periods_match(r@, alert_id, aps@),
{
    let mut r: Vec<ActivePeriod> = Vec::new();
    let mut i: usize = 0;
    while i < aps.len()
        invariant
            i <= aps@.len(),
            periods_match(r@, alert_id, aps@.subrange(0, i as int)),
        decreases aps.len() - i,
    {
        let ghost pre = aps@.subrange(0, i as int);
        let ghost cur = aps@.subrange(0, i + 1);
        assert(cur.drop_last() =~= pre);
        let ap = &aps[i];
        let ghost r0 = r@;
        if let Some(s) = ap.start {
            if let Some(start) = from_timestamp(s as i64) {
                let end = match ap.end {
                    Some(e) => from_timestamp(e as i64),
                    None => None,
                };
                r.push(ActivePeriod { alert_id, start_time: start, end_time: end });
                assert(r@.len() == kept_periods(cur).len());
                assert forall|j: int| 0 <= j < r@.len() implies (#[trigger] r@[j]).alert_id
                    == alert_id && (r@[j].start_time, r@[j].end_time) == kept_periods(cur)[j] by {
                    if j < r@.len() - 1 {
                        assert(r@[j] == r0[j]);
                    }
                }
            }
        }
        i = i + 1;
    }
    assert(aps@.subrange(0, i as int) =~= aps@);
    r
}

/// The MTA subway alert feed.
pub struct MtaSubwayAlerts;

impl MtaSubwayAlerts {
    pub fn source(&self) -> (s: Source)
        ensures
            s == Source::MtaSubway,
    {
        Source::MtaSubway
    }

    /// Convert SIR express ("SS") to "SI"; every other route id is kept.
    pub fn parse_route_id(&self, route_id: String) -> (r: Option<String>)
        ensures
            opt_string_view(r) == mta_alert_route(route_id@),
    {
        let chars = str_chars(route_id.as_str());
        if crate::text::chars_eq(chars.as_slice(), &['S', 'S']) {
            Some(string_from_chars(&['S', 'I']))
        } else {
            Some(route_id)
        }
    }

    /// Subway stop IDs without the trailing N/S direction indicator; none for
    /// the non-existent stops.
    pub fn parse_stop_id(&self, stop_id: String) -> (r: Option<String>)
        ensures
            opt_string_view(r) == mta_alert_stop(stop_id@),
    {
        let mut chars = str_chars(stop_id.as_str());
        let n = chars.len();
        if n > 0 && (chars[n - 1] == 'N' || chars[n - 1] == 'S') {
            chars.pop();
        }
        assert(chars@ == without_direction(stop_id@));
        if fake_stop_id(&chars) {
            return None;
        }
        Some(string_from_chars(chars.as_slice()))
    }

    /// The stored form of an alert, with a fresh id and the current time as
    /// its recording time (see `process_alert_at`, whose result it is for
    /// some id and time). None when the MTA extension is missing (elevator
    /// outages) or its timestamps are out of range.
    pub fn process_alert(&self, entity_id: String, alert: GtfsAlert) -> (r: Option<ParsedAlert>)
        ensures
            r is Some <==> mta_alert_accepted(alert),
            r matches Some(p) ==> exists|id: u128, now: i64| #[trigger] mta_alert_result(p, entity_id, alert, id, now),
    {
        let id = new_id();
        let now = now_unix();
        let ghost e = entity_id;
        let ghost a = alert;
        let r = self.process_alert_at(entity_id, alert, id, now);
        if let Some(p) = &r {
            assert(mta_alert_result(*p, e, a, id, now));
        }
        r
    }

    /// `process_alert` with the new alert's id and the current time given.
    pub fn process_alert_at(&self, entity_id: String, alert: GtfsAlert, alert_id: u128, now: i64) -> (r:
        Option<ParsedAlert>)
        ensures
            r is Some <==> mta_alert_accepted(alert),
            r matches Some(p) ==> mta_alert_result(p, entity_id, alert, alert_id, now),
    {
        let mercury = match &alert.mercury_alert {
            Some(m) => m,
            None => return None,
        };
        let created_at = match from_timestamp(mercury.created_at as i64) {
            Some(t) => t,
            None => return None,
        };
        let updated_at = match from_timestamp(mercury.updated_at as i64) {
            Some(t) => t,
            None => return None,
        };
        let display_before_active: i32 = match mercury.display_before_active {
            Some(v) => v as i32,
            None => 0,
        };
        let mta_data = MtaData {
            display_before_active,
            alert_type: mercury.alert_type.clone(),
            clone_id: clone_opt_string(&mercury.clone_id),
        };
        let parsed_alert = Alert {
            id: alert_id,
            original_id: entity_id,
            source: Source::MtaSubway,
            created_at,
            updated_at,
            recorded_at: now,
            data: AlertData::MtaSubway(mta_data),
        };
        let mut translations: Vec<AlertTranslation> = Vec::new();
        if let Some(header_text) = &alert.header_text {
            let ghost e0 = translations@.len();
            push_mta_translations(&mut translations, alert_id, AlertSection::Header, &header_text.translation);
            assert forall|i: int| 0 <= i < header_text.translation@.len() implies mta_translation(
                #[trigger] translations@[i],
                alert_id,
                AlertSection::Header,
                header_text.translation@[i],
            ) by {
                assert(e0 == 0);
                let x = translations@[e0 + i];
            }
        }
        let ghost nh = translations@.len();
        let ghost t1 = translations@;
        let ghost hs = translations_of(alert.header_text);
        assert(nh == hs.len());
        assert(forall|i: int|
            0 <= i < hs.len() ==> mta_translation(#[trigger] t1[i], alert_id, AlertSection::Header, hs[i]));
        if let Some(description_text) = &alert.description_text {
            push_mta_translations(
                &mut translations,
                alert_id,
                AlertSection::Description,
                &description_text.translation,
            );
        }
        assert forall|i: int| 0 <= i < hs.len() implies mta_translation(
            #[trigger] translations@[i],
            alert_id,
            AlertSection::Header,
            hs[i],
        ) by {
            assert(translations@[i] == t1[i]);
        }
        let active_periods = collect_periods(alert_id, &alert.active_period);
        let mut entities: Vec<AffectedEntity> = Vec::new();
        let mut i: usize = 0;
        while i < alert.informed_entity.len()
            invariant
                i <= alert.informed_entity@.len(),
                entities@.len() == i,
                forall|j: int|
                    0 <= j < i ==> mta_entity(
                        #[trigger] entities@[j],
                        alert_id,
                        alert.informed_entity@[j],
                    ),
            decreases alert.informed_entity.len() - i,
        {
            let entity = &alert.informed_entity[i];
            let route_id = match &entity.route_id {
                Some(r) => self.parse_route_id(r.clone()),
                None => None,
            };
            let stop_id = match &entity.stop_id {
                Some(s) => self.parse_stop_id(s.clone()),
                None => None,
            };
            let sort_order = match &entity.mercury_entity_selector {
                Some(selector) => {
                    let chars = str_chars(selector.sort_order.as_str());
                    let piece = last_piece(&chars, ':');
                    match parse_i32(&piece) {
                        Some(v) => v,
                        None => 0,
                    }
                },
                None => 0,
            };
            entities.push(
                AffectedEntity {
                    alert_id,
                    route_id,
                    source: Source::MtaSubway,
                    stop_id,
                    sort_order,
                },
            );
            i = i + 1;
        }
        Some((parsed_alert, translations, active_periods, entities))
    }
}

/// Whether the MTA subway feed's alert is kept: it carries the MTA extension
/// and both of its timestamps are representable.
pub open spec fn mta_alert_accepted(alert: GtfsAlert) -> bool {
    match alert.mercury_alert {
        Some(m) => utc_from_secs((m.created_at as i64) as int) is Some && utc_from_secs(
            (m.updated_at as i64) as int,
        ) is Some,
        None => false,
    }
}

/// What `process_alert` stores for an accepted MTA subway alert.
pub open spec fn mta_alert_result(
    p: ParsedAlert,
    entity_id: String,
    alert: GtfsAlert,
    alert_id: u128,
    now: i64,
) -> bool {
    let m = alert.mercury_alert.unwrap();
    let hs = translations_of(alert.header_text);
    let ds = translations_of(alert.description_text);
    &&& p.0.id == alert_id
    &&& p.0.original_id == entity_id
    &&& p.0.source == Source::MtaSubway
    &&& Some(p.0.created_at) == utc_from_secs((m.created_at as i64) as int)
    &&& Some(p.0.updated_at) == utc_from_secs((m.updated_at as i64) as int)
    &&& p.0.recorded_at == now
    &&& p.0.data matches AlertData::MtaSubway(d) && d.display_before_active == (match m.display_before_active {
        Some(v) => v as i32,
        None => 0i32,
    }) && d.alert_type == m.alert_type && d.clone_id == m.clone_id
    &&& p.1@.len() == hs.len() + ds.len()
    &&& forall|i: int|
        0 <= i < hs.len() ==> mta_translation(#[trigger] p.1@[i], alert_id, AlertSection::Header, hs[i])
    &&& forall|i: int|
        0 <= i < ds.len() ==> mta_translation(
            #[trigger] p.1@[hs.len() + i],
            alert_id,
            AlertSection::Description,
            ds[i],
        )
    &&& periods_match(p.2@, alert_id, alert.active_period@)
    &&& p.3@.len() == alert.informed_entity@.len()
    &&& forall|i: int|
        0 <= i < p.3@.len() ==> mta_entity(#[trigger] p.3@[i], alert_id, alert.informed_entity@[i])
}

/// Appends the MTA-style stored forms of `ts` to `out`.
fn push_mta_translations(
    out: &mut Vec<AlertTranslation>,
    alert_id: u128,
    section: AlertSection,
    ts: &Vec<Translation>,
)
    ensures
        final(out)@.len() == old(out)@.len() + ts@.len(),
        forall|j: int| 0 <= j < old(out)@.len() ==> final(out)@[j] == old(out)@[j],
        forall|j: int|
            0 <= j < ts@.len() ==> mta_translation(
                #[trigger] final(out)@[old(out)@.len() + j],
                alert_id,
                section,
                ts@[j],
            ),
{
    let ghost n0 = out@.len();
    let mut i: usize = 0;
    while i < ts.len()
        invariant
            i <= ts@.len(),
            out@.len() == n0 + i,
            n0 == old(out)@.len(),
            forall|j: int| 0 <= j < n0 ==> out@[j] == old(out)@[j],
            forall|j: int|
                0 <= j < i ==> mta_translation(#[trigger] out@[n0 + j], alert_id, section, ts@[j]),
        decreases ts.len() - i,
    {
        let t = &ts[i];
        let lang: Option<&str> = match &t.language {
            Some(l) => Some(l.as_str()),
            None => None,
        };
        let (format, language) = parse_mta_language(lang);
        assert(crate::ids::opt_str_view(lang) == opt_string_view(t.language));
        out.push(AlertTranslation { alert_id, section, format, language, text: t.text.clone() });
        i = i + 1;
    }
}

/// The NJ Transit bus alert feed.
pub struct NjtBusAlerts;

/// Whether the NJ Transit feed's alert is kept: its first active period has
/// a representable start, it has at least one description translation, and at
/// least one active period is kept.
pub open spec fn njt_alert_accepted(alert: GtfsAlert) -> bool {
    &&& first_start(alert.active_period@) is Some
    &&& translations_of(alert.description_text).len() > 0
    &&& kept_periods(alert.active_period@).len() > 0
}

/// What `process_alert` stores for an accepted NJ Transit alert.
pub open spec fn njt_alert_result(
    p: ParsedAlert,
    entity_id: String,
    alert: GtfsAlert,
    alert_id: u128,
    now: i64,
) -> bool {
    let ds = translations_of(alert.description_text);
    let es = named_entities(alert.informed_entity@);
    &&& p.0.id == alert_id
    &&& p.0.original_id == entity_id
    &&& p.0.source == Source::NjtBus
    &&& Some(p.0.created_at) == first_start(alert.active_period@)
    &&& p.0.updated_at == now
    &&& p.0.recorded_at == now
    &&& p.0.data is NjtBus
    &&& p.1@.len() == ds.len()
    &&& forall|i: int| 0 <= i < ds.len() ==> njt_translation(#[trigger] p.1@[i], alert_id, ds[i])
    &&& periods_match(p.2@, alert_id, alert.active_period@)
    &&& p.3@.len() == es.len()
    &&& forall|i: int| 0 <= i < es.len() ==> njt_entity(#[trigger] p.3@[i], alert_id, es[i])
}

impl NjtBusAlerts {
    pub fn source(&self) -> (s: Source)
        ensures
            s == Source::NjtBus,
    {
        Source::NjtBus
    }

    /// The stored form of an alert, with a fresh id and the current time (see
    /// `process_alert_at`, whose result it is for some id and time).
    pub fn process_alert(&self, entity_id: String, alert: GtfsAlert) -> (r: Option<ParsedAlert>)
        ensures
            r is Some <==> njt_alert_accepted(alert),
            r matches Some(p) ==> exists|id: u128, now: i64| #[trigger] njt_alert_result(p, entity_id, alert, id, now),
    {
        let id = new_id();
        let now = now_unix();
        let ghost e = entity_id;
        let ghost a = alert;
        let r = self.process_alert_at(entity_id, alert, id, now);
        if let Some(p) = &r {
            assert(njt_alert_result(*p, e, a, id, now));
        }
        r
    }

    /// `process_alert` with the new alert's id and the current time given.
    /// The creation time is the first active period's start, so that repeated
    /// runs store the same row.
    pub fn process_alert_at(&self, entity_id: String, alert: GtfsAlert, alert_id: u128, now: i64) -> (r:
        Option<ParsedAlert>)
        ensures
            r is Some <==> njt_alert_accepted(alert),
            r matches Some(p) ==> njt_alert_result(p, entity_id, alert, alert_id, now),
    {
        let created_at = if alert.active_period.len() > 0 {
            match alert.active_period[0].start {
                Some(s) => from_timestamp(s as i64),
                None => None,
            }
        } else {
            None
        };
        let created_at = match created_at {
            Some(t) => t,
            None => return None,
        };
        let parsed_alert = Alert {
            id: alert_id,
            original_id: entity_id,
            source: Source::NjtBus,
            created_at,
            updated_at: now,
            recorded_at: now,
            data: AlertData::NjtBus,
        };
        let mut translations: Vec<AlertTranslation> = Vec::new();
        if let Some(description_text) = &alert.description_text {
            let ts = &description_text.translation;
            let mut i: usize = 0;
            while i < ts.len()
                invariant
                    i <= ts@.len(),
                    translations@.len() == i,
                    forall|j: int|
                        0 <= j < i ==> njt_translation(#[trigger] translations@[j], alert_id, ts@[j]),
                decreases ts.len() - i,
            {
                let t = &ts[i];
                let language = match &t.language {
                    Some(l) => l.clone(),
                    None => string_from_chars(&['e', 'n']),
                };
                translations.push(
                    AlertTranslation {
                        alert_id,
                        section: AlertSection::Description,
                        format: AlertFormat::Plain,
                        language,
                        text: t.text.clone(),
                    },
                );
                i = i + 1;
            }
        }
        if translations.len() == 0 {
            return None;
        }
        let active_periods = collect_periods(alert_id, &alert.active_period);
        if active_periods.len() == 0 {
            return None;
        }
        let mut entities: Vec<AffectedEntity> = Vec::new();
        let mut i: usize = 0;
        let ghost es = alert.informed_entity@;
        while i < alert.informed_entity.len()
            invariant
                i <= es.len(),
                es == alert.informed_entity@,
                entities@.len() == named_entities(es.subrange(0, i as int)).len(),
                forall|j: int|
                    0 <= j < entities@.len() ==> njt_entity(
                        #[trigger] entities@[j],
                        alert_id,
                        named_entities(es.subrange(0, i as int))[j],
                    ),
            decreases es.len() - i,
        {
            let entity = &alert.informed_entity[i];
            let ghost pre = es.subrange(0, i as int);
            let ghost cur = es.subrange(0, i + 1);
            assert(cur.drop_last() =~= pre);
            assert(named_entities(cur) == {
                let f = named_entities(pre);
                if cur.last().route_id is Some || cur.last().stop_id is Some {
                    f.push(cur.last())
                } else {
                    f
                }
            }) by {
                reveal_with_fuel(Seq::<_>::filter, 1);
            }
            if entity.route_id.is_some() || entity.stop_id.is_some() {
                entities.push(
                    AffectedEntity {
                        alert_id,
                        route_id: clone_opt_string(&entity.route_id),
                        source: Source::NjtBus,
                        stop_id: clone_opt_string(&entity.stop_id),
                        sort_order: 0,
                    },
                );
            }
            i = i + 1;
        }
        assert(es.subrange(0, es.len() as int) =~= es);
        Some((parsed_alert, translations, active_periods, entities))
    }
}

} // verus!
