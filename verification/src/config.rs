//! Configuration rules: the minimum level, the service name and the service
//! version, each resolved from an explicit value and environment values.
use vstd::prelude::*;
use crate::text::{
    all_ascii, ascii_lowercase, find_char, first_index_of, lemma_first_index_absent,
    lemma_first_index_found, lemma_trim_ascii_lowercase, lowercase_of, str_eq, to_lowercase,
    trim_spec, trim_str,
};

verus! {

/// The minimum severity an installed subscriber lets through.
#[derive(Clone, Copy, Debug, PartialEq, Eq, Structural)]
pub enum LevelFilter {
    Debug,
    Info,
    Warn,
    Error,
}

/// Why installing the subscriber failed.
#[derive(Debug)]
pub enum InitError {
    /// A global subscriber was installed before.
    AlreadyInitialized,
    /// The level text (trimmed and lowercased) names no known level.
    UnknownLevel(String),
}

/// The text that `InitError::message` gives for an error.
pub open spec fn init_error_text(e: InitError) -> Seq<char> {
    match e {
        InitError::AlreadyInitialized => "a global tracing subscriber is already installed"@,
        InitError::UnknownLevel(s) => "unknown LOG_LEVEL value: "@ + s@,
    }
}

impl InitError {
    /// The human-readable description of the error.
    pub fn message(&self) -> (r: String)
        ensures
            r@ == init_error_text(*self),
    {
        match self {
            InitError::AlreadyInitialized => String::from_str(
                "a global tracing subscriber is already installed",
            ),
            InitError::UnknownLevel(s) => {
                let mut out = String::from_str("unknown LOG_LEVEL value: ");
                out.append(s.as_str());
                out
            },
        }
    }
}

/// The level filter a (trimmed, lowercased) level name stands for: the
/// schema's names plus the aliases `warning`, `fatal` and `critical`.
pub open spec fn filter_named(name: Seq<char>) -> Option<LevelFilter> {
    if name == "debug"@ {
        Some(LevelFilter::Debug)
    } else if name == "info"@ {
        Some(LevelFilter::Info)
    } else if name == "warn"@ || name == "warning"@ {
        Some(LevelFilter::Warn)
    } else if name == "error"@ || name == "fatal"@ || name == "critical"@ {
        Some(LevelFilter::Error)
    } else {
        None
    }
}

/// The view of an optional string slice.
pub open spec fn opt_str_view(o: Option<&str>) -> Option<Seq<char>> {
    match o {
        Some(s) => Some(s@),
        None => None,
    }
}

/// The view of an optional string.
pub open spec fn opt_string_view(o: Option<String>) -> Option<Seq<char>> {
    match o {
        Some(s) => Some(s@),
        None => None,
    }
}

/// The level text that applies: the explicit one, else the environment's,
/// else `info`.
pub open spec fn chosen_level_text(
    explicit: Option<Seq<char>>,
    env_level: Option<Seq<char>>,
) -> Seq<char> {
    match explicit {
        Some(s) => s,
        None => match env_level {
            Some(s) => s,
            None => "info"@,
        },
    }
}

/// The lowercase form of a text: the ASCII mapping for ASCII text, the
/// Unicode one (named by `lowercase_of`) otherwise.
pub open spec fn lowercased(s: Seq<char>) -> Seq<char> {
    if all_ascii(s) {
        ascii_lowercase(s)
    } else {
        lowercase_of(s)
    }
}

/// The normalized level text: trimmed, then lowercased.
pub open spec fn normalized_level_text(
    explicit: Option<Seq<char>>,
    env_level: Option<Seq<char>>,
) -> Seq<char> {
    lowercased(trim_spec(chosen_level_text(explicit, env_level)))
}

/// `r` is what resolving the level from these texts gives: the filter the
/// normalized text names, or `UnknownLevel` carrying that text.
pub open spec fn level_resolution(
    explicit: Option<Seq<char>>,
    env_level: Option<Seq<char>>,
    r: Result<LevelFilter, InitError>,
) -> bool {
    let raw = normalized_level_text(explicit, env_level);
    match r {
        Ok(f) => filter_named(raw) == Some(f),
        Err(InitError::UnknownLevel(s)) => filter_named(raw) is None && s@ == raw,
        Err(InitError::AlreadyInitialized) => false,
    }
}

fn filter_from_name(name: &String) -> (r: Option<LevelFilter>)
    ensures
        r == filter_named(name@),
{
    let n = name.as_str();
    if str_eq(n, "debug") {
        Some(LevelFilter::Debug)
    } else if str_eq(n, "info") {
        Some(LevelFilter::Info)
    } else if str_eq(n, "warn") || str_eq(n, "warning") {
        Some(LevelFilter::Warn)
    } else if str_eq(n, "error") || str_eq(n, "fatal") || str_eq(n, "critical") {
        Some(LevelFilter::Error)
    } else {
        None
    }
}

/// Resolves the minimum level: the explicit text if given, else the
/// `LOG_LEVEL` environment value if set, else `info`; trimmed and
/// lowercased, then matched against the level names and their aliases.
pub fn resolve_level(explicit: Option<&str>, env_level: Option<&str>) -> (r: Result<
    LevelFilter,
    InitError,
>)
    ensures
        level_resolution(opt_str_view(explicit), opt_str_view(env_level), r),
{
    let chosen: &str = match explicit {
        Some(s) => s,
        None => match env_level {
            Some(s) => s,
            None => "info",
        },
    };
    let raw = to_lowercase(trim_str(chosen));
    match filter_from_name(&raw) {
        Some(f) => Ok(f),
        None => Err(InitError::UnknownLevel(raw)),
    }
}

/// The service name: `OTEL_SERVICE_NAME`, else `SERVICE_NAME`, else
/// `unknown_service`.
pub open spec fn service_name_spec(
    otel_service_name: Option<Seq<char>>,
    service_name: Option<Seq<char>>,
) -> Seq<char> {
    match otel_service_name {
        Some(s) => s,
        None => match service_name {
            Some(s) => s,
            None => "unknown_service"@,
        },
    }
}

/// Resolves the service name from the `OTEL_SERVICE_NAME` and
/// `SERVICE_NAME` environment values.
pub fn resolve_service_name(otel_service_name: Option<String>, service_name: Option<String>) -> (r:
    String)
    ensures
        r@ == service_name_spec(opt_string_view(otel_service_name), opt_string_view(service_name)),
{
    match otel_service_name {
        Some(s) => s,
        None => match service_name {
            Some(s) => s,
            None => String::from_str("unknown_service"),
        },
    }
}

/// The attribute key that carries the service version.
pub open spec fn version_key() -> Seq<char> {
    "service.version"@
}

/// The version one `key=value` entry gives: the trimmed text after its first
/// `=`, when the trimmed text before it is `service.version`.
pub open spec fn entry_version(entry: Seq<char>) -> Option<Seq<char>> {
    let e = first_index_of(entry, '=');
    if e < 0 {
        None
    } else if trim_spec(entry.subrange(0, e)) == version_key() {
        Some(trim_spec(entry.subrange(e + 1, entry.len() as int)))
    } else {
        None
    }
}

/// The version a comma-separated `OTEL_RESOURCE_ATTRIBUTES` value gives:
/// that of its first entry that carries one.
pub open spec fn attributes_version(attrs: Seq<char>) -> Option<Seq<char>>
    decreases attrs.len(),
{
    let c = first_index_of(attrs, ',');
    if c < 0 || c >= attrs.len() {
        entry_version(attrs)
    } else {
        match entry_version(attrs.subrange(0, c)) {
            Some(v) => Some(v),
            None => attributes_version(attrs.subrange(c + 1, attrs.len() as int)),
        }
    }
}

/// The service version: `SERVICE_VERSION`, else the `service.version`
/// entry of `OTEL_RESOURCE_ATTRIBUTES`, else `0.0.0`.
pub open spec fn service_version_spec(
    service_version: Option<Seq<char>>,
    resource_attributes: Option<Seq<char>>,
) -> Seq<char> {
    match service_version {
        Some(v) => v,
        None => match resource_attributes {
            Some(a) => match attributes_version(a) {
                Some(v) => v,
                None => "0.0.0"@,
            },
            None => "0.0.0"@,
        },
    }
}

/// The version carried by one `key=value` entry, if its key is
/// `service.version`.
fn version_of_entry(entry: &str) -> (r: Option<String>)
    ensures
        opt_string_view(r) == entry_version(entry@),
{
    let n = entry.unicode_len();
    let e = find_char(entry, '=');
    if e == n {
        return None;
    }
    let key = trim_str(entry.substring_char(0, e));
    if str_eq(key, "service.version") {
        Some(String::from_str(trim_str(entry.substring_char(e + 1, n))))
    } else {
        None
    }
}

/// Looks up `service.version` in a comma-separated list of `key=value`
/// entries, as `OTEL_RESOURCE_ATTRIBUTES` holds them. Entries without `=`
/// are skipped; the first matching entry wins.
pub fn version_from_attributes(attrs: &str) -> (r: Option<String>)
    ensures
        opt_string_view(r) == attributes_version(attrs@),
{
    let n = attrs.unicode_len();
    let mut start: usize = 0;
    let mut i: usize = 0;
    assert(attrs@.subrange(0, n as int) =~= attrs@);
    while i < n
        invariant
            n == attrs@.len(),
            start <= i <= n,
            forall|j: int| start <= j < i ==> attrs@[j] != ',',
            attributes_version(attrs@) == attributes_version(attrs@.subrange(start as int, n as int)),
        decreases n - i,
    {
        if attrs.get_char(i) == ',' {
            let ghost rest = attrs@.subrange(start as int, n as int);
            proof {
                lemma_first_index_found(rest, ',', i - start);
                assert(rest.subrange(0, i - start) =~= attrs@.subrange(start as int, i as int));
                assert(rest.subrange(i - start + 1, rest.len() as int) =~= attrs@.subrange(
                    i + 1,
                    n as int,
                ));
            }
            let entry = attrs.substring_char(start, i);
            let found = version_of_entry(entry);
            if found.is_some() {
                return found;
            }
            start = i + 1;
        }
        i = i + 1;
    }
    let ghost rest = attrs@.subrange(start as int, n as int);
    proof {
        lemma_first_index_absent(rest, ',');
    }
    version_of_entry(attrs.substring_char(start, n))
}

/// Resolves the service version from the `SERVICE_VERSION` and
/// `OTEL_RESOURCE_ATTRIBUTES` environment values.
pub fn resolve_service_version(
    service_version: Option<String>,
    resource_attributes: Option<&str>,
) -> (r: String)
    ensures
        r@ == service_version_spec(
            opt_string_view(service_version),
            opt_str_view(resource_attributes),
        ),
{
    if let Some(v) = service_version {
        return v;
    }
    if let Some(attrs) = resource_attributes {
        if let Some(v) = version_from_attributes(attrs) {
            return v;
        }
    }
    String::from_str("0.0.0")
}

/// Level names are case-insensitive: two ASCII level texts that differ only
/// in letter case resolve alike, whatever the environment holds.
pub proof fn lemma_level_case_insensitive(
    a: Seq<char>,
    b: Seq<char>,
    env_level: Option<Seq<char>>,
    r: Result<LevelFilter, InitError>,
)
    requires
        all_ascii(a),
        all_ascii(b),
        ascii_lowercase(a) == ascii_lowercase(b),
    ensures
        level_resolution(Some(a), env_level, r) == level_resolution(Some(b), env_level, r),
{
    lemma_trim_ascii_lowercase(a);
    lemma_trim_ascii_lowercase(b);
    lemma_trim_ascii_lowercase(ascii_lowercase(a));
    assert(normalized_level_text(Some(a), env_level) == ascii_lowercase(trim_spec(a)));
    assert(ascii_lowercase(trim_spec(a)) == trim_spec(ascii_lowercase(a)));
    assert(ascii_lowercase(trim_spec(b)) == trim_spec(ascii_lowercase(b)));
}

/// An entry without `=` carries no version and is skipped: the entries
/// after it decide.
pub proof fn lemma_entry_without_equals_skipped(entry: Seq<char>, rest: Seq<char>)
    requires
        forall|i: int| 0 <= i < entry.len() ==> entry[i] != '=' && entry[i] != ',',
    ensures
        attributes_version(entry + seq![','] + rest) == attributes_version(rest),
{
    let a = entry + seq![','] + rest;
    assert forall|j: int| 0 <= j < entry.len() implies a[j] != ',' by {
        assert(a[j] == entry[j]);
    }
    assert(a[entry.len() as int] == ',');
    lemma_first_index_found(a, ',', entry.len() as int);
    assert(a.subrange(0, entry.len() as int) =~= entry);
    assert(a.subrange(entry.len() + 1int, a.len() as int) =~= rest);
    lemma_first_index_absent(entry, '=');
}

/// The first entry that carries a version wins over later ones.
pub proof fn lemma_first_version_entry_wins(entry: Seq<char>, rest: Seq<char>)
    requires
        forall|i: int| 0 <= i < entry.len() ==> entry[i] != ',',
        entry_version(entry) is Some,
    ensures
        attributes_version(entry + seq![','] + rest) == entry_version(entry),
{
    let a = entry + seq![','] + rest;
    assert forall|j: int| 0 <= j < entry.len() implies a[j] != ',' by {
        assert(a[j] == entry[j]);
    }
    assert(a[entry.len() as int] == ',');
    lemma_first_index_found(a, ',', entry.len() as int);
    assert(a.subrange(0, entry.len() as int) =~= entry);
}

} // verus!
