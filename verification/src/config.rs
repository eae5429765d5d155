//! The agent's settings: which values are required, their defaults, the
//! endpoints derived from the head-end address and the exchange kind.

use vstd::prelude::*;
use vstd::string::StringExecFns;
use crate::text::{is_blank, lemma_lower_all_idempotent, lower_all, str_eq, to_ascii_lowercase, trim};

verus! {

/// Host or IP address of the head end, without scheme.
pub const HEADEND_URL_VAR: &'static str = "HEADEND_URL";
/// The AMQP exchange to bind to.
pub const AMQP_EXCHANGE_VAR: &'static str = "HEADEND_AMQP_EXCHANGE";
/// The kind of that exchange.
pub const AMQP_EXCHANGE_TYPE_VAR: &'static str = "HEADEND_AMQP_EXCHANGE_TYPE";
/// The queue to consume.
pub const AMQP_QUEUE_VAR: &'static str = "HEADEND_AMQP_QUEUE";
/// The routing key of the binding.
pub const AMQP_ROUTING_KEY_VAR: &'static str = "HEADEND_AMQP_ROUTING_KEY";
/// The AMQP user name.
pub const AMQP_USERNAME_VAR: &'static str = "HEADEND_AMQP_USERNAME";
/// The AMQP password.
pub const AMQP_PASSWORD_VAR: &'static str = "HEADEND_AMQP_PASSWORD";
/// The directory of the active and the last good `pjsip.conf`.
pub const PJSIP_BASE_DIR_VAR: &'static str = "PJSIP_BASE_DIR";
/// The directory of the rolling backups.
pub const PJSIP_BACKUP_DIR_VAR: &'static str = "PJSIP_BACKUP_DIR";

/// Why a required setting was refused.
#[derive(Clone, Copy, PartialEq, Eq, Debug, Structural)]
pub enum ConfigErrorKind {
    /// The setting is absent (or not valid Unicode).
    Missing,
    /// The setting holds nothing but whitespace.
    Empty,
}

/// A refused setting and its name.
pub struct ConfigError {
    pub kind: ConfigErrorKind,
    pub name: String,
}

/// The kinds of AMQP exchange.
#[derive(Clone, Copy, PartialEq, Eq, Debug, Structural)]
pub enum ExchangeKind {
    Direct,
    Fanout,
    Headers,
    Topic,
}

/// The settings of the agent, every one of them required.
pub struct AppConfig {
    pub headend_url: String,
    pub amqp_exchange: String,
    pub amqp_exchange_type: String,
    pub amqp_queue: String,
    pub amqp_routing_key: String,
    pub amqp_username: String,
    pub amqp_password: String,
    pub pjsip_base_dir: String,
    pub pjsip_backup_dir: String,
}

/// The raw values of the settings, each absent where it is unset (or not
/// valid Unicode).
pub struct Settings {
    pub headend_url: Option<String>,
    pub amqp_exchange: Option<String>,
    pub amqp_exchange_type: Option<String>,
    pub amqp_queue: Option<String>,
    pub amqp_routing_key: Option<String>,
    pub amqp_username: Option<String>,
    pub amqp_password: Option<String>,
    pub pjsip_base_dir: Option<String>,
    pub pjsip_backup_dir: Option<String>,
}

/// The text of an error, as the agent reports it.
pub open spec fn spec_error_message(kind: ConfigErrorKind, name: Seq<char>) -> Seq<char> {
    match kind {
        ConfigErrorKind::Missing => "Missing required env var "@ + name,
        ConfigErrorKind::Empty => "Environment variable "@ + name + " is empty"@,
    }
}

impl ConfigError {
    /// The text of the error.
    pub fn message(&self) -> (r: String)
        ensures
            r@ == spec_error_message(self.kind, self.name@),
    {
        let mut out = String::new();
        match self.kind {
            ConfigErrorKind::Missing => {
                out.append("Missing required env var ");
                out.append(self.name.as_str());
            },
            ConfigErrorKind::Empty => {
                out.append("Environment variable ");
                out.append(self.name.as_str());
                out.append(" is empty");
            },
        }
        out
    }
}

/// The value of a required setting, or why it is refused.
pub open spec fn spec_required(name: Seq<char>, value: Option<Seq<char>>) -> Result<Seq<char>, (ConfigErrorKind, Seq<char>)> {
    match value {
        None => Err((ConfigErrorKind::Missing, name)),
        Some(v) => if trim(v).len() == 0 {
            Err((ConfigErrorKind::Empty, name))
        } else {
            Ok(v)
        },
    }
}

/// The view of a setting's value or of its refusal.
pub open spec fn value_view(r: Result<String, ConfigError>) -> Result<Seq<char>, (ConfigErrorKind, Seq<char>)> {
    match r {
        Ok(v) => Ok(v@),
        Err(e) => Err((e.kind, e.name@)),
    }
}

/// Checks the value of the required setting `name`: it must be present and
/// hold more than whitespace; it is kept as it is.
pub fn required_value(name: &str, value: Option<String>) -> (r: Result<String, ConfigError>)
    ensures
        value_view(r) == spec_required(name@, value.deep_view()),
{
    let mut n = String::new();
    n.append(name);
    match value {
        None => Err(ConfigError { kind: ConfigErrorKind::Missing, name: n }),
        Some(v) => {
            if is_blank(v.as_str()) {
                Err(ConfigError { kind: ConfigErrorKind::Empty, name: n })
            } else {
                Ok(v)
            }
        },
    }
}

/// The names of the settings, in the order in which they are checked.
pub open spec fn setting_names() -> Seq<Seq<char>> {
    seq![
        HEADEND_URL_VAR@,
        AMQP_EXCHANGE_VAR@,
        AMQP_EXCHANGE_TYPE_VAR@,
        AMQP_QUEUE_VAR@,
        AMQP_ROUTING_KEY_VAR@,
        AMQP_USERNAME_VAR@,
        AMQP_PASSWORD_VAR@,
        PJSIP_BASE_DIR_VAR@,
        PJSIP_BACKUP_DIR_VAR@,
    ]
}

/// The raw values, in the order of `setting_names`.
pub open spec fn setting_values(s: Settings) -> Seq<Option<Seq<char>>> {
    seq![
        s.headend_url.deep_view(),
        s.amqp_exchange.deep_view(),
        s.amqp_exchange_type.deep_view(),
        s.amqp_queue.deep_view(),
        s.amqp_routing_key.deep_view(),
        s.amqp_username.deep_view(),
        s.amqp_password.deep_view(),
        s.pjsip_base_dir.deep_view(),
        s.pjsip_backup_dir.deep_view(),
    ]
}

/// The values of a configuration, in the order of `setting_names`.
pub open spec fn config_values(c: AppConfig) -> Seq<Seq<char>> {
    seq![
        c.headend_url@,
        c.amqp_exchange@,
        c.amqp_exchange_type@,
        c.amqp_queue@,
        c.amqp_routing_key@,
        c.amqp_username@,
        c.amqp_password@,
        c.pjsip_base_dir@,
        c.pjsip_backup_dir@,
    ]
}

/// `e` is the refusal of the first setting, in the order of `names`, that
/// is refused.
pub open spec fn is_first_refusal(
    names: Seq<Seq<char>>,
    values: Seq<Option<Seq<char>>>,
    e: (ConfigErrorKind, Seq<char>),
) -> bool {
    exists|i: int|
        0 <= i < names.len() && #[trigger] spec_required(names[i], values[i]) == Err::<Seq<char>, _>(e)
            && forall|j: int| 0 <= j < i ==> (#[trigger] spec_required(names[j], values[j])) is Ok
}

/// The public ports and paths of the head end.
pub open spec fn spec_amqp_url(url: Seq<char>) -> Seq<char> {
    "amqp://"@ + url + ":5672"@
}

pub open spec fn spec_graphql_url(url: Seq<char>) -> Seq<char> {
    "http://"@ + url + ":5000/graphql"@
}

/// The exchange kind that a setting names, ignoring ASCII case.
pub open spec fn spec_parse_exchange_kind(t: Seq<char>) -> Option<ExchangeKind> {
    let l = lower_all(t);
    if l == "direct"@ {
        Some(ExchangeKind::Direct)
    } else if l == "fanout"@ {
        Some(ExchangeKind::Fanout)
    } else if l == "headers"@ {
        Some(ExchangeKind::Headers)
    } else if l == "topic"@ {
        Some(ExchangeKind::Topic)
    } else {
        None
    }
}

/// The exchange kind that a configuration uses: the one its setting names,
/// else `topic`.
pub open spec fn configured_exchange_kind(t: Seq<char>) -> ExchangeKind {
    match spec_parse_exchange_kind(t) {
        Some(k) => k,
        None => ExchangeKind::Topic,
    }
}

/// The exchange kind that `t` names, ignoring ASCII case, if any.
pub fn parse_exchange_kind(t: &str) -> (r: Option<ExchangeKind>)
    ensures
        r == spec_parse_exchange_kind(t@),
{
    let l = to_ascii_lowercase(t);
    let l = l.as_str();
    if str_eq(l, "direct") {
        Some(ExchangeKind::Direct)
    } else if str_eq(l, "fanout") {
        Some(ExchangeKind::Fanout)
    } else if str_eq(l, "headers") {
        Some(ExchangeKind::Headers)
    } else if str_eq(l, "topic") {
        Some(ExchangeKind::Topic)
    } else {
        None
    }
}

impl AppConfig {
    /// The configuration made of the raw setting values: every setting is
    /// required and kept as it is; the first one, in the order of
    /// `setting_names`, that is absent or blank refuses the whole.
    pub fn from_settings(s: Settings) -> (r: Result<AppConfig, ConfigError>)
        ensures
            match r {
                Ok(c) => forall|i: int|
                    0 <= i < 9 ==> #[trigger] spec_required(setting_names()[i], setting_values(s)[i])
                        == Ok::<Seq<char>, (ConfigErrorKind, Seq<char>)>(config_values(c)[i]),
                Err(e) => is_first_refusal(setting_names(), setting_values(s), (e.kind, e.name@)),
            },
    {
        let ghost names = setting_names();
        let ghost values = setting_values(s);
        let headend_url = match required_value(HEADEND_URL_VAR, s.headend_url) {
            Ok(v) => v,
            Err(e) => {
                assert(spec_required(names[0], values[0]) == Err::<Seq<char>, (ConfigErrorKind, Seq<char>)>((e.kind, e.name@)));
                return Err(e);
            },
        };
        let amqp_exchange = match required_value(AMQP_EXCHANGE_VAR, s.amqp_exchange) {
            Ok(v) => v,
            Err(e) => {
                assert(spec_required(names[1], values[1]) == Err::<Seq<char>, (ConfigErrorKind, Seq<char>)>((e.kind, e.name@)));
                return Err(e);
            },
        };
        let amqp_exchange_type = match required_value(AMQP_EXCHANGE_TYPE_VAR, s.amqp_exchange_type) {
            Ok(v) => v,
            Err(e) => {
                assert(spec_required(names[2], values[2]) == Err::<Seq<char>, (ConfigErrorKind, Seq<char>)>((e.kind, e.name@)));
                return Err(e);
            },
        };
        let amqp_queue = match required_value(AMQP_QUEUE_VAR, s.amqp_queue) {
            Ok(v) => v,
            Err(e) => {
                assert(spec_required(names[3], values[3]) == Err::<Seq<char>, (ConfigErrorKind, Seq<char>)>((e.kind, e.name@)));
                return Err(e);
            },
        };
        let amqp_routing_key = match required_value(AMQP_ROUTING_KEY_VAR, s.amqp_routing_key) {
            Ok(v) => v,
            Err(e) => {
                assert(spec_required(names[4], values[4]) == Err::<Seq<char>, (ConfigErrorKind, Seq<char>)>((e.kind, e.name@)));
                return Err(e);
            },
        };
        let amqp_username = match required_value(AMQP_USERNAME_VAR, s.amqp_username) {
            Ok(v) => v,
            Err(e) => {
                assert(spec_required(names[5], values[5]) == Err::<Seq<char>, (ConfigErrorKind, Seq<char>)>((e.kind, e.name@)));
                return Err(e);
            },
        };
        let amqp_password = match required_value(AMQP_PASSWORD_VAR, s.amqp_password) {
            Ok(v) => v,
            Err(e) => {
                assert(spec_required(names[6], values[6]) == Err::<Seq<char>, (ConfigErrorKind, Seq<char>)>((e.kind, e.name@)));
                return Err(e);
            },
        };
        let pjsip_base_dir = match required_value(PJSIP_BASE_DIR_VAR, s.pjsip_base_dir) {
            Ok(v) => v,
            Err(e) => {
                assert(spec_required(names[7], values[7]) == Err::<Seq<char>, (ConfigErrorKind, Seq<char>)>((e.kind, e.name@)));
                return Err(e);
            },
        };
        let pjsip_backup_dir = match required_value(PJSIP_BACKUP_DIR_VAR, s.pjsip_backup_dir) {
            Ok(v) => v,
            Err(e) => {
                assert(spec_required(names[8], values[8]) == Err::<Seq<char>, (ConfigErrorKind, Seq<char>)>((e.kind, e.name@)));
                return Err(e);
            },
        };
        let c = AppConfig {
            headend_url,
            amqp_exchange,
            amqp_exchange_type,
            amqp_queue,
            amqp_routing_key,
            amqp_username,
            amqp_password,
            pjsip_base_dir,
            pjsip_backup_dir,
        };
        assert(forall|i: int|
            0 <= i < 9 ==> #[trigger] spec_required(names[i], values[i])
                == Ok::<Seq<char>, (ConfigErrorKind, Seq<char>)>(config_values(c)[i]));
        Ok(c)
    }

    /// The AMQP endpoint of the head end: `amqp://<url>:5672`.
    pub fn amqp_url(&self) -> (r: String)
        ensures
            r@ == spec_amqp_url(self.headend_url@),
    {
        let mut out = String::new();
        out.append("amqp://");
        out.append(self.headend_url.as_str());
        out.append(":5672");
        out
    }

    /// The GraphQL endpoint of the head end: `http://<url>:5000/graphql`.
    pub fn graphql_url(&self) -> (r: String)
        ensures
            r@ == spec_graphql_url(self.headend_url@),
    {
        let mut out = String::new();
        out.append("http://");
        out.append(self.headend_url.as_str());
        out.append(":5000/graphql");
        out
    }

    /// The configured exchange kind; a setting that names none is `topic`.
    pub fn exchange_kind(&self) -> (r: ExchangeKind)
        ensures
            r == configured_exchange_kind(self.amqp_exchange_type@),
    {
        match parse_exchange_kind(self.amqp_exchange_type.as_str()) {
            Some(k) => k,
            None => ExchangeKind::Topic,
        }
    }
}


/// The exchange kind is read ignoring ASCII case: a setting names the same
/// kind as its lower-case form.
pub proof fn lemma_exchange_kind_case_insensitive(t: Seq<char>)
    ensures
        spec_parse_exchange_kind(t) == spec_parse_exchange_kind(lower_all(t)),
{
    lemma_lower_all_idempotent(t);
}

/// Each kind is named by its lower-case name, in any ASCII case, and by
/// nothing else; every other setting names no kind.
pub proof fn lemma_exchange_kind_names(t: Seq<char>)
    ensures
        lower_all(t) == "direct"@ <==> spec_parse_exchange_kind(t) == Some(ExchangeKind::Direct),
        lower_all(t) == "fanout"@ <==> spec_parse_exchange_kind(t) == Some(ExchangeKind::Fanout),
        lower_all(t) == "headers"@ <==> spec_parse_exchange_kind(t) == Some(ExchangeKind::Headers),
        lower_all(t) == "topic"@ <==> spec_parse_exchange_kind(t) == Some(ExchangeKind::Topic),
        spec_parse_exchange_kind(t) is None <==> (lower_all(t) != "direct"@ && lower_all(t) != "fanout"@
            && lower_all(t) != "headers"@ && lower_all(t) != "topic"@),
{
    reveal_strlit("direct");
    reveal_strlit("fanout");
    reveal_strlit("headers");
    reveal_strlit("topic");
    assert("direct"@[0] == 'd' && "fanout"@[0] == 'f' && "headers"@[0] == 'h' && "topic"@[0] == 't');
    assert("direct"@ != "fanout"@ && "direct"@ != "headers"@ && "direct"@ != "topic"@);
    assert("fanout"@ != "headers"@ && "fanout"@ != "topic"@ && "headers"@ != "topic"@);
}

/// A configuration's exchange kind is the kind its setting names, ignoring
/// ASCII case, and `topic` when it names none.
pub proof fn lemma_config_exchange_kind(t: Seq<char>)
    ensures
        lower_all(t) == "direct"@ ==> configured_exchange_kind(t) == ExchangeKind::Direct,
        lower_all(t) == "fanout"@ ==> configured_exchange_kind(t) == ExchangeKind::Fanout,
        lower_all(t) == "headers"@ ==> configured_exchange_kind(t) == ExchangeKind::Headers,
        lower_all(t) == "topic"@ ==> configured_exchange_kind(t) == ExchangeKind::Topic,
        configured_exchange_kind(t) == configured_exchange_kind(lower_all(t)),
{
    lemma_exchange_kind_names(t);
    lemma_exchange_kind_case_insensitive(t);
}

} // verus!
