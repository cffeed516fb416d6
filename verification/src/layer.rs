//! The log event: which fields an emitted event carries and where the
//! recorded event and span fields land.
use vstd::prelude::*;
use crate::config::{opt_string_view, LevelFilter};
use crate::fields::{FieldData, FieldMap, FieldValue, overlaid};
use crate::timestamp::{normalize_ts, normalize_ts_spec};

verus! {

/// The severity of an event.
#[derive(Clone, Copy, Debug, PartialEq, Eq, Structural)]
pub enum Level {
    Trace,
    Debug,
    Info,
    Warn,
    Error,
}

/// The schema's name for a level. The schema has no `trace`, so it is
/// emitted as `debug`.
pub open spec fn level_name(level: Level) -> Seq<char> {
    match level {
        Level::Trace | Level::Debug => "debug"@,
        Level::Info => "info"@,
        Level::Warn => "warn"@,
        Level::Error => "error"@,
    }
}

/// The schema's name for a level.
pub fn level_to_str(level: Level) -> (r: &'static str)
    ensures
        r@ == level_name(level),
{
    match level {
        Level::Trace | Level::Debug => "debug",
        Level::Info => "info",
        Level::Warn => "warn",
        Level::Error => "error",
    }
}

/// The name of the field that holds an event's message.
pub open spec fn message_name() -> Seq<char> {
    "message"@
}

/// The context the spans give, walked from the root to the innermost span:
/// a field of an inner span replaces the same field of an outer one. A
/// span field named `message` is left out.
pub open spec fn span_context(spans: Seq<Map<Seq<char>, FieldData>>) -> Map<Seq<char>, FieldData>
    decreases spans.len(),
{
    if spans.len() == 0 {
        Map::empty()
    } else {
        span_context(spans.drop_last()).union_prefer_right(overlaid(spans.last(), true))
    }
}

/// The context of an event: the span context, with the event's own fields
/// (all but `message`) replacing span fields of the same name.
pub open spec fn event_context(
    spans: Seq<Map<Seq<char>, FieldData>>,
    event: Map<Seq<char>, FieldData>,
) -> Map<Seq<char>, FieldData> {
    span_context(spans).union_prefer_right(event.remove(message_name()))
}

/// The message of an event: its `message` field, or the empty string.
pub open spec fn event_message(event: Map<Seq<char>, FieldData>) -> FieldData {
    if event.contains_key(message_name()) {
        event[message_name()]
    } else {
        FieldData::Str(Seq::empty())
    }
}

/// The field maps of a list of spans.
pub open spec fn span_views(spans: Seq<FieldMap>) -> Seq<Map<Seq<char>, FieldData>> {
    spans.map_values(|m: FieldMap| m@)
}

/// One emitted log event. Every event has a timestamp, level, message,
/// service and version; `context` is absent when no field is left for it,
/// and the trace and span identifiers are absent outside a traced span.
pub struct LogEvent {
    pub timestamp: String,
    pub level: String,
    pub message: FieldValue,
    pub service: String,
    pub version: String,
    pub context: Option<FieldMap>,
    pub trace_id: Option<String>,
    pub span_id: Option<String>,
}

/// The context an event carries: `None` for an empty field map.
pub open spec fn context_matches(context: Option<FieldMap>, fields: Map<Seq<char>, FieldData>) -> bool {
    match context {
        None => fields == Map::<Seq<char>, FieldData>::empty(),
        Some(c) => c@ == fields && fields != Map::<Seq<char>, FieldData>::empty(),
    }
}

/// The view of an optional pair of identifiers.
pub open spec fn trace_ids_view(ids: Option<(String, String)>) -> Option<(Seq<char>, Seq<char>)> {
    match ids {
        Some(p) => Some((p.0@, p.1@)),
        None => None,
    }
}

/// `e` is the event for a record with the given timestamp, level and
/// fields, inside the given spans (root first) and trace identifiers, for
/// the given service and version: the timestamp normalized to
/// milliseconds, the level's schema name, the `message` field at top level,
/// every other event and span field in `context` (inner ones replacing outer
/// ones), and the trace identifiers as given.
pub open spec fn is_event_of(
    e: LogEvent,
    service: Seq<char>,
    version: Seq<char>,
    timestamp: Seq<char>,
    level: Level,
    fields: Map<Seq<char>, FieldData>,
    spans: Seq<Map<Seq<char>, FieldData>>,
    trace_ids: Option<(Seq<char>, Seq<char>)>,
) -> bool {
    &&& e.timestamp@ == normalize_ts_spec(timestamp)
    &&& e.level@ == level_name(level)
    &&& e.message@ == event_message(fields)
    &&& e.service@ == service
    &&& e.version@ == version
    &&& context_matches(e.context, event_context(spans, fields))
    &&& opt_string_view(e.trace_id) == match trace_ids {
        Some(ids) => Some(ids.0),
        None => None::<Seq<char>>,
    }
    &&& opt_string_view(e.span_id) == match trace_ids {
        Some(ids) => Some(ids.1),
        None => None::<Seq<char>>,
    }
}

/// How severe a level is: TRACE < DEBUG < INFO < WARN < ERROR.
pub open spec fn severity(level: Level) -> int {
    match level {
        Level::Trace => 0,
        Level::Debug => 1,
        Level::Info => 2,
        Level::Warn => 3,
        Level::Error => 4,
    }
}

/// The least severity a level filter lets through.
pub open spec fn filter_floor(filter: LevelFilter) -> int {
    match filter {
        LevelFilter::Debug => 1,
        LevelFilter::Info => 2,
        LevelFilter::Warn => 3,
        LevelFilter::Error => 4,
    }
}

/// A level filter lets through exactly the events at least as severe as
/// its level.
pub open spec fn level_admitted(filter: LevelFilter, level: Level) -> bool {
    severity(level) >= filter_floor(filter)
}

impl LevelFilter {
    /// Whether an event of `level` passes this filter: it does when it is at
    /// least as severe as the filter's level.
    pub fn admits(&self, level: Level) -> (r: bool)
        ensures
            r == level_admitted(*self, level),
    {
        let floor: u8 = match self {
            LevelFilter::Debug => 1,
            LevelFilter::Info => 2,
            LevelFilter::Warn => 3,
            LevelFilter::Error => 4,
        };
        let sev: u8 = match level {
            Level::Trace => 0,
            Level::Debug => 1,
            Level::Info => 2,
            Level::Warn => 3,
            Level::Error => 4,
        };
        sev >= floor
    }
}

/// Each level filter lets through events of its own level and stops those of
/// the level just below it: `debug` admits DEBUG but not TRACE, `info` admits
/// INFO but not DEBUG, `warn` admits WARN but not INFO, `error` admits ERROR
/// but not WARN.
pub proof fn lemma_filter_boundaries()
    ensures
        level_admitted(LevelFilter::Debug, Level::Debug),
        !level_admitted(LevelFilter::Debug, Level::Trace),
        level_admitted(LevelFilter::Info, Level::Info),
        !level_admitted(LevelFilter::Info, Level::Debug),
        level_admitted(LevelFilter::Warn, Level::Warn),
        !level_admitted(LevelFilter::Warn, Level::Info),
        level_admitted(LevelFilter::Error, Level::Error),
        !level_admitted(LevelFilter::Error, Level::Warn),
{
}

/// A filter that lets a level through lets every more severe level through.
pub proof fn lemma_more_severe_also_admitted(filter: LevelFilter, a: Level, b: Level)
    requires
        level_admitted(filter, a),
        severity(a) <= severity(b),
    ensures
        level_admitted(filter, b),
{
}

/// Builds log events for one service and version, writing them through
/// `make_writer`.
pub struct JsonLayer<W> {
    make_writer: W,
    service: String,
    version: String,
}

impl<W> JsonLayer<W> {
    /// The service name the events carry.
    pub closed spec fn service_view(&self) -> Seq<char> {
        self.service@
    }

    /// The version the events carry.
    pub closed spec fn version_view(&self) -> Seq<char> {
        self.version@
    }

    /// Where the events are written.
    pub closed spec fn writer_view(&self) -> W {
        self.make_writer
    }

    /// A layer with the given writer factory, service and version.
    pub fn new(make_writer: W, service: String, version: String) -> (r: JsonLayer<W>)
        ensures
            r.writer_view() == make_writer,
            r.service_view() == service@,
            r.version_view() == version@,
    {
        JsonLayer { make_writer, service, version }
    }

    /// The writer factory.
    pub fn make_writer(&self) -> (r: &W)
        ensures
            *r == self.writer_view(),
    {
        &self.make_writer
    }

    /// The service name.
    pub fn service(&self) -> (r: &str)
        ensures
            r@ == self.service_view(),
    {
        self.service.as_str()
    }

    /// The version.
    pub fn version(&self) -> (r: &str)
        ensures
            r@ == self.version_view(),
    {
        self.version.as_str()
    }

    /// The event for a record with the given timestamp, level and fields,
    /// inside the given spans (root first) and trace identifiers: the
    /// timestamp normalized to milliseconds, the level's schema name, the
    /// `message` field at top level, and every other event and span field
    /// in `context`, inner ones replacing outer ones.
    pub fn build_event(
        &self,
        timestamp: &str,
        level: Level,
        fields: FieldMap,
        spans: &Vec<FieldMap>,
        trace_ids: Option<(String, String)>,
    ) -> (r: LogEvent)
        ensures
            is_event_of(
                r,
                self.service_view(),
                self.version_view(),
                timestamp@,
                level,
                fields@,
                span_views(spans@),
                trace_ids_view(trace_ids),
            ),
    {
        let ghost event_fields = fields@;
        let mut fields = fields;
        let message = match fields.remove("message") {
            Some(m) => m,
            None => FieldValue::Str(String::new()),
        };
        let mut context = FieldMap::new();
        let n = spans.len();
        let mut i: usize = 0;
        let ghost views = span_views(spans@);
        assert(views.take(0) =~= Seq::<Map<Seq<char>, FieldData>>::empty());
        while i < n
            invariant
                n == spans@.len(),
                views == span_views(spans@),
                i <= n,
                context@ == span_context(views.take(i as int)),
            decreases n - i,
        {
            context.overlay(&spans[i], true);
            proof {
                assert(views.take(i + 1).drop_last() =~= views.take(i as int));
                assert(views.take(i + 1).last() == spans@[i as int]@);
            }
            i = i + 1;
        }
        assert(views.take(n as int) =~= views);
        context.overlay(&fields, false);
        let context = if context.is_empty() {
            None
        } else {
            Some(context)
        };
        let (trace_id, span_id) = match trace_ids {
            Some((t, s)) => (Some(t), Some(s)),
            None => (None, None),
        };
        LogEvent {
            timestamp: normalize_ts(timestamp),
            level: String::from_str(level_to_str(level)),
            message,
            service: self.service.clone(),
            version: self.version.clone(),
            context,
            trace_id,
            span_id,
        }
    }
}

/// A name is in the span context exactly when it is not `message` and some
/// span records it.
proof fn lemma_span_context_names(spans: Seq<Map<Seq<char>, FieldData>>, k: Seq<char>)
    ensures
        span_context(spans).contains_key(k) <==> (k != message_name() && exists|j: int|
            0 <= j < spans.len() && #[trigger] spans[j].contains_key(k)),
    decreases spans.len(),
{
    if spans.len() > 0 {
        let init = spans.drop_last();
        lemma_span_context_names(init, k);
        if k != message_name() && spans.last().contains_key(k) {
            assert(spans[spans.len() - 1].contains_key(k));
        }
        if exists|j: int| 0 <= j < init.len() && #[trigger] init[j].contains_key(k) {
            let j = choose|j: int| 0 <= j < init.len() && #[trigger] init[j].contains_key(k);
            assert(spans[j] == init[j]);
        }
        if exists|j: int| 0 <= j < spans.len() && #[trigger] spans[j].contains_key(k) {
            let j = choose|j: int| 0 <= j < spans.len() && #[trigger] spans[j].contains_key(k);
            if j < init.len() {
                assert(init[j] == spans[j]);
            }
        }
    }
}

/// The span context gives a name the value of the innermost span that
/// records it.
proof fn lemma_span_context_innermost(
    spans: Seq<Map<Seq<char>, FieldData>>,
    k: Seq<char>,
    j: int,
)
    requires
        k != message_name(),
        0 <= j < spans.len(),
        spans[j].contains_key(k),
        forall|l: int| j < l < spans.len() ==> !(#[trigger] spans[l].contains_key(k)),
    ensures
        span_context(spans).contains_key(k),
        span_context(spans)[k] == spans[j][k],
    decreases spans.len(),
{
    let init = spans.drop_last();
    if j < spans.len() - 1 {
        assert forall|l: int| j < l < init.len() implies !(#[trigger] init[l].contains_key(k)) by {
            assert(init[l] == spans[l]);
        }
        lemma_span_context_innermost(init, k, j);
        assert(!spans[spans.len() - 1].contains_key(k));
    }
}

/// The context of an event never holds a field named `message`: the
/// message always goes to the top level.
pub proof fn lemma_context_excludes_message(
    spans: Seq<Map<Seq<char>, FieldData>>,
    event: Map<Seq<char>, FieldData>,
)
    ensures
        !event_context(spans, event).contains_key(message_name()),
{
    lemma_span_context_names(spans, message_name());
}

/// The context holds exactly the fields, other than `message`, that the
/// event or one of its spans records.
pub proof fn lemma_context_names(
    spans: Seq<Map<Seq<char>, FieldData>>,
    event: Map<Seq<char>, FieldData>,
    k: Seq<char>,
)
    ensures
        event_context(spans, event).contains_key(k) <==> (k != message_name() && (
        event.contains_key(k) || exists|j: int|
            0 <= j < spans.len() && #[trigger] spans[j].contains_key(k))),
{
    lemma_span_context_names(spans, k);
}

/// An event's own field wins over span fields of the same name.
pub proof fn lemma_event_field_wins(
    spans: Seq<Map<Seq<char>, FieldData>>,
    event: Map<Seq<char>, FieldData>,
    k: Seq<char>,
)
    requires
        k != message_name(),
        event.contains_key(k),
    ensures
        event_context(spans, event).contains_key(k),
        event_context(spans, event)[k] == event[k],
{
}

/// Among nested spans, the innermost span that records a field gives its
/// value, unless the event records the field itself.
pub proof fn lemma_innermost_span_field_wins(
    spans: Seq<Map<Seq<char>, FieldData>>,
    event: Map<Seq<char>, FieldData>,
    k: Seq<char>,
    j: int,
)
    requires
        k != message_name(),
        !event.contains_key(k),
        0 <= j < spans.len(),
        spans[j].contains_key(k),
        forall|l: int| j < l < spans.len() ==> !(#[trigger] spans[l].contains_key(k)),
    ensures
        event_context(spans, event).contains_key(k),
        event_context(spans, event)[k] == spans[j][k],
{
    lemma_span_context_innermost(spans, k, j);
}

/// The context is empty, and so left out of the event, exactly when
/// neither the event nor any span records a field other than `message`.
pub proof fn lemma_context_empty_iff_no_fields(
    spans: Seq<Map<Seq<char>, FieldData>>,
    event: Map<Seq<char>, FieldData>,
)
    ensures
        (event_context(spans, event) == Map::<Seq<char>, FieldData>::empty()) <==> (forall|
            k: Seq<char>,
        |
            k != message_name() ==> !event.contains_key(k) && forall|j: int|
                0 <= j < spans.len() ==> !(#[trigger] spans[j].contains_key(k))),
{
    let c = event_context(spans, event);
    if c == Map::<Seq<char>, FieldData>::empty() {
        assert forall|k: Seq<char>| k != message_name() implies !event.contains_key(k) && forall|
            j: int,
        | 0 <= j < spans.len() ==> !(#[trigger] spans[j].contains_key(k)) by {
            lemma_context_names(spans, event, k);
            assert(!c.contains_key(k));
        }
    }
    if forall|k: Seq<char>|
        k != message_name() ==> !event.contains_key(k) && forall|j: int|
            0 <= j < spans.len() ==> !(#[trigger] spans[j].contains_key(k)) {
        assert forall|k: Seq<char>| !c.contains_key(k) by {
            lemma_context_names(spans, event, k);
        }
        assert(c =~= Map::<Seq<char>, FieldData>::empty());
    }
}

} // verus!
