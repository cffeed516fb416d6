//! The subscriber configuration: what an explicit level and the
//! environment resolve to, and how a failed installation is reported.
use vstd::prelude::*;
use crate::config::{
    level_resolution, opt_str_view, opt_string_view, resolve_level, resolve_service_name,
    resolve_service_version, service_name_spec, service_version_spec, InitError, LevelFilter,
    filter_named, normalized_level_text,
};
use crate::fields::{FieldData, FieldMap};
use crate::layer::{
    filter_floor, is_event_of, level_admitted, severity, span_views, trace_ids_view, JsonLayer,
    Level, LogEvent,
};

verus! {

/// The environment values the configuration reads; `None` for a variable
/// that is unset (or not valid Unicode).
pub struct Environment {
    /// `LOG_LEVEL`
    pub log_level: Option<String>,
    /// `OTEL_SERVICE_NAME`
    pub otel_service_name: Option<String>,
    /// `SERVICE_NAME`
    pub service_name: Option<String>,
    /// `SERVICE_VERSION`
    pub service_version: Option<String>,
    /// `OTEL_RESOURCE_ATTRIBUTES`
    pub otel_resource_attributes: Option<String>,
}

/// What a subscriber is installed with.
pub struct Settings {
    pub level: LevelFilter,
    pub service: String,
    pub version: String,
}

/// Builder for the global subscriber. Use [`builder`] to construct one.
pub struct Builder {
    level: Option<String>,
}

impl Builder {
    /// The explicit level text, if one was set.
    pub closed spec fn level_view(&self) -> Option<Seq<char>> {
        opt_string_view(self.level)
    }

    /// Override the level. Accepts schema enum values and stdlib aliases.
    /// When unset, `LOG_LEVEL` applies, then `info`.
    pub fn level(self, level: &str) -> (r: Builder)
        ensures
            r.level_view() == Some(level@),
    {
        Builder { level: Some(String::from_str(level)) }
    }

    /// The settings this builder installs a subscriber with in the given
    /// environment: the resolved level (an unknown one is an error, reported
    /// before anything else is resolved), the service name and the version.
    pub fn settings(&self, env: Environment) -> (r: Result<Settings, InitError>)
        ensures
            match r {
                Ok(s) => {
                    &&& level_resolution(
                        self.level_view(),
                        opt_string_view(env.log_level),
                        Ok(s.level),
                    )
                    &&& s.service@ == service_name_spec(
                        opt_string_view(env.otel_service_name),
                        opt_string_view(env.service_name),
                    )
                    &&& s.version@ == service_version_spec(
                        opt_string_view(env.service_version),
                        opt_string_view(env.otel_resource_attributes),
                    )
                },
                Err(e) => level_resolution(self.level_view(), opt_string_view(env.log_level), Err(e)),
            },
    {
        let explicit: Option<&str> = match &self.level {
            Some(s) => Some(s.as_str()),
            None => None,
        };
        let env_level: Option<&str> = match &env.log_level {
            Some(s) => Some(s.as_str()),
            None => None,
        };
        let level = match resolve_level(explicit, env_level) {
            Ok(f) => f,
            Err(e) => return Err(e),
        };
        let attributes: Option<&str> = match &env.otel_resource_attributes {
            Some(s) => Some(s.as_str()),
            None => None,
        };
        let version = resolve_service_version(env.service_version, attributes);
        let service = resolve_service_name(env.otel_service_name, env.service_name);
        Ok(Settings { level, service, version })
    }
}

impl Builder {
    /// Resolves the configuration in the given environment and assembles
    /// the subscriber to install, writing through `make_writer`: an unknown
    /// level is an error, reported before anything else is resolved.
    /// Installing the result as the global default is left to the caller.
    pub fn try_init<W>(self, env: Environment, make_writer: W) -> (r: Result<Pipeline<W>, InitError>)
        ensures
            match r {
                Ok(p) => installed_from(self.level_view(), env, p) && p.layer_view().writer_view()
                    == make_writer,
                Err(e) => level_resolution(
                    self.level_view(),
                    opt_string_view(env.log_level),
                    Err(e),
                ),
            },
    {
        match self.settings(env) {
            Ok(settings) => Ok(Pipeline::new(settings, make_writer)),
            Err(e) => Err(e),
        }
    }
}

impl Default for Builder {
    fn default() -> (r: Builder)
        ensures
            r.level_view() == None::<Seq<char>>,
    {
        Builder { level: None }
    }
}

/// Build a fresh subscriber configuration.
pub fn builder() -> (r: Builder)
    ensures
        r.level_view() == None::<Seq<char>>,
{
    Builder::default()
}

/// The outcome of installing the default subscriber when installing one
/// that was already there is not an error: `AlreadyInitialized` becomes
/// success, every other outcome is kept.
pub fn try_init(outcome: Result<(), InitError>) -> (r: Result<(), InitError>)
    ensures
        match outcome {
            Ok(()) => r is Ok,
            Err(InitError::AlreadyInitialized) => r is Ok,
            Err(InitError::UnknownLevel(s)) => r matches Err(InitError::UnknownLevel(t)) && t@
                == s@,
        },
{
    match outcome {
        Ok(()) => Ok(()),
        Err(InitError::AlreadyInitialized) => Ok(()),
        Err(e) => Err(e),
    }
}

/// `p` is the subscriber assembled from the explicit level text and the
/// environment: its filter is the resolved level, and its layer carries the
/// resolved service name and version.
pub open spec fn installed_from<W>(explicit: Option<Seq<char>>, env: Environment, p: Pipeline<W>) -> bool {
    &&& level_resolution(explicit, opt_string_view(env.log_level), Ok(p.filter_view()))
    &&& p.layer_view().service_view() == service_name_spec(
        opt_string_view(env.otel_service_name),
        opt_string_view(env.service_name),
    )
    &&& p.layer_view().version_view() == service_version_spec(
        opt_string_view(env.service_version),
        opt_string_view(env.otel_resource_attributes),
    )
}

/// What an installed subscriber is made of: the level filter and the layer
/// that builds the events that pass it, both fixed when it is installed.
pub struct Pipeline<W> {
    filter: LevelFilter,
    layer: JsonLayer<W>,
}

impl<W> Pipeline<W> {
    /// The level filter.
    pub closed spec fn filter_view(&self) -> LevelFilter {
        self.filter
    }

    /// The layer.
    pub closed spec fn layer_view(&self) -> JsonLayer<W> {
        self.layer
    }

    /// The subscriber for the given settings, writing through `make_writer`.
    pub fn new(settings: Settings, make_writer: W) -> (r: Pipeline<W>)
        ensures
            r.filter_view() == settings.level,
            r.layer_view().service_view() == settings.service@,
            r.layer_view().version_view() == settings.version@,
            r.layer_view().writer_view() == make_writer,
    {
        Pipeline {
            filter: settings.level,
            layer: JsonLayer::new(make_writer, settings.service, settings.version),
        }
    }

    /// The layer.
    pub fn layer(&self) -> (r: &JsonLayer<W>)
        ensures
            *r == self.layer_view(),
    {
        &self.layer
    }

    /// Whether an event of `level` is emitted: it is when it is at least as
    /// severe as the filter's level.
    pub fn enabled(&self, level: Level) -> (r: bool)
        ensures
            r == level_admitted(self.filter_view(), level),
    {
        self.filter.admits(level)
    }

    /// The event emitted for a record, if its level passes the filter; it
    /// carries the service and version the subscriber was installed with.
    pub fn event(
        &self,
        timestamp: &str,
        level: Level,
        fields: FieldMap,
        spans: &Vec<FieldMap>,
        trace_ids: Option<(String, String)>,
    ) -> (r: Option<LogEvent>)
        ensures
            r is Some <==> level_admitted(self.filter_view(), level),
            r matches Some(e) ==> is_event_of(
                e,
                self.layer_view().service_view(),
                self.layer_view().version_view(),
                timestamp@,
                level,
                fields@,
                span_views(spans@),
                trace_ids_view(trace_ids),
            ),
    {
        if self.filter.admits(level) {
            Some(self.layer.build_event(timestamp, level, fields, spans, trace_ids))
        } else {
            None
        }
    }
}

/// A subscriber assembled by `Builder::try_init` emits exactly the events
/// at least as severe as the level resolved at that call, each carrying the
/// service name and version resolved at that call: later records, and later
/// changes of the environment, do not change them.
pub proof fn lemma_installed_events_follow_settings<W>(
    explicit: Option<Seq<char>>,
    env: Environment,
    p: Pipeline<W>,
    level: Level,
    e: LogEvent,
    timestamp: Seq<char>,
    fields: Map<Seq<char>, FieldData>,
    spans: Seq<Map<Seq<char>, FieldData>>,
    trace_ids: Option<(Seq<char>, Seq<char>)>,
)
    requires
        installed_from(explicit, env, p),
        is_event_of(
            e,
            p.layer_view().service_view(),
            p.layer_view().version_view(),
            timestamp,
            level,
            fields,
            spans,
            trace_ids,
        ),
    ensures
        filter_named(normalized_level_text(explicit, opt_string_view(env.log_level))) == Some(
            p.filter_view(),
        ),
        level_admitted(p.filter_view(), level) <==> severity(level) >= filter_floor(
            p.filter_view(),
        ),
        e.service@ == service_name_spec(
            opt_string_view(env.otel_service_name),
            opt_string_view(env.service_name),
        ),
        e.version@ == service_version_spec(
            opt_string_view(env.service_version),
            opt_string_view(env.otel_resource_attributes),
        ),
{
}

/// An explicitly set level takes precedence over `LOG_LEVEL`: whatever the
/// environment holds, the level outcome is the same.
pub proof fn lemma_explicit_level_overrides_env(
    explicit: Seq<char>,
    env_a: Option<Seq<char>>,
    env_b: Option<Seq<char>>,
    r: Result<LevelFilter, InitError>,
)
    ensures
        level_resolution(Some(explicit), env_a, r) == level_resolution(Some(explicit), env_b, r),
{
}

} // verus!
