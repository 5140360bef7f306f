//! The settings that the pipeline receives, and the checks that decide
//! whether the sidecar runs with them or stands aside.

pub mod flush_strategy;
pub mod log_level;
pub mod processing_rule;

use crate::config::flush_strategy::FlushStrategy;
use crate::config::log_level::LogLevel;
use crate::config::processing_rule::ProcessingRule;
use crate::vecs::push_all;
use vstd::prelude::*;
use vstd::string::StringSliceAdditionalSpecFns;

verus! {

/// The settings of the sidecar.
#[derive(Debug, PartialEq, Clone)]
pub struct Config {
    pub site: String,
    pub api_key: String,
    pub api_key_secret_arn: String,
    pub kms_api_key: String,
    pub env: Option<String>,
    pub service: Option<String>,
    pub version: Option<String>,
    pub tags: Option<String>,
    pub log_level: LogLevel,
    pub serverless_logs_enabled: bool,
    pub logs_config_processing_rules: Option<Vec<ProcessingRule>>,
    pub apm_enabled: bool,
    pub lambda_handler: String,
    pub serverless_flush_strategy: FlushStrategy,
    pub trace_enabled: bool,
    pub serverless_trace_enabled: bool,
    pub capture_lambda_payload: bool,
    /// Accepted and ignored.
    pub flush_to_log: bool,
    /// Accepted and ignored.
    pub logs_injection: bool,
    /// Accepted and ignored.
    pub merge_xray_traces: bool,
    pub serverless_appsec_enabled: bool,
    pub extension_version: Option<String>,
}

impl Default for Config {
    /// The settings in use where nothing is configured.
    fn default() -> (config: Config)
        ensures
            config.site@ == "datadoghq.com"@,
            config.api_key@.len() == 0,
            config.api_key_secret_arn@.len() == 0,
            config.kms_api_key@.len() == 0,
            config.serverless_flush_strategy == FlushStrategy::Default,
            config.env is None,
            config.service is None,
            config.version is None,
            config.tags is None,
            config.log_level == LogLevel::Info,
            config.serverless_logs_enabled,
            config.logs_config_processing_rules is None,
            !config.apm_enabled,
            config.lambda_handler@.len() == 0,
            config.serverless_trace_enabled,
            config.trace_enabled,
            !config.capture_lambda_payload,
            !config.flush_to_log,
            !config.logs_injection,
            !config.merge_xray_traces,
            !config.serverless_appsec_enabled,
            config.extension_version is None,
    {
        Config {
            site: "datadoghq.com".to_string(),
            api_key: String::new(),
            api_key_secret_arn: String::new(),
            kms_api_key: String::new(),
            serverless_flush_strategy: FlushStrategy::Default,
            env: None,
            service: None,
            version: None,
            tags: None,
            log_level: LogLevel::Info,
            serverless_logs_enabled: true,
            logs_config_processing_rules: None,
            apm_enabled: false,
            lambda_handler: String::new(),
            serverless_trace_enabled: true,
            trace_enabled: true,
            capture_lambda_payload: false,
            flush_to_log: false,
            logs_injection: false,
            merge_xray_traces: false,
            serverless_appsec_enabled: false,
            extension_version: None,
        }
    }
}

/// Why the sidecar does not run with the settings it found.
#[derive(Debug, PartialEq)]
pub enum ConfigError {
    /// The settings could not be read; the text says why.
    ParseError(String),
    /// A setting is present that this sidecar does not support; the text
    /// names it.
    UnsupportedField(String),
}

/// Why the layered sources gave no settings.
#[derive(Debug, PartialEq)]
pub enum ExtractError {
    /// A field that the settings do not know; the text names it.
    UnknownField(String),
    /// Anything else; the text says what.
    Other(String),
}

/// What the sidecar knows of the function it runs beside.
pub struct AwsConfig {
    pub region: String,
    pub aws_access_key_id: String,
    pub aws_secret_access_key: String,
    pub aws_session_token: String,
    pub function_name: String,
}

/// The settings opt in to this sidecar: the extension version is `next`.
pub open spec fn opted_in(config: Config) -> bool {
    config.extension_version is Some && config.extension_version->0@ == "next"@
}

/// The field on account of which settings that were read are refused, if
/// they are.
pub open spec fn unsupported_field(config: Config) -> Option<Seq<char>> {
    if config.serverless_appsec_enabled {
        Some("appsec_enabled"@)
    } else if !opted_in(config) {
        Some("extension_version"@)
    } else {
        None
    }
}

/// Decides what becomes of the settings that the layered sources gave.
///
/// An unknown field is an unsupported field of that name, any other
/// failure a parse error with its text. Settings that were read are
/// refused where application security is switched on, and where the
/// extension version is not `next`; otherwise they are handed on as they
/// are.
pub fn get_config(extracted: Result<Config, ExtractError>) -> (outcome: Result<
    Config,
    ConfigError,
>)
    ensures
        match extracted {
            Err(ExtractError::UnknownField(field)) => outcome == Err::<Config, ConfigError>(
                ConfigError::UnsupportedField(field),
            ),
            Err(ExtractError::Other(text)) => outcome == Err::<Config, ConfigError>(
                ConfigError::ParseError(text),
            ),
            Ok(config) => match unsupported_field(config) {
                Some(field) => outcome matches Err(ConfigError::UnsupportedField(name))
                    && name@ == field,
                None => outcome == Ok::<Config, ConfigError>(config),
            },
        },
{
    match extracted {
        Err(ExtractError::UnknownField(field)) => Err(ConfigError::UnsupportedField(field)),
        Err(ExtractError::Other(text)) => Err(ConfigError::ParseError(text)),
        Ok(config) => {
            if config.serverless_appsec_enabled {
                return Err(ConfigError::UnsupportedField("appsec_enabled".to_string()));
            }
            let next = "next".to_string();
            let opted = match &config.extension_version {
                Some(version) => *version == next,
                None => false,
            };
            if opted {
                Ok(config)
            } else {
                Err(ConfigError::UnsupportedField("extension_version".to_string()))
            }
        },
    }
}

/// The reason that is reported when the sidecar stands aside: the name of
/// the unsupported field. A parse error reports none.
pub fn failover_reason(error: &ConfigError) -> (reason: Option<String>)
    ensures
        match *error {
            ConfigError::UnsupportedField(field) => reason == Some(field),
            ConfigError::ParseError(_) => reason is None,
        },
{
    match error {
        ConfigError::UnsupportedField(field) => Some(field.clone()),
        ConfigError::ParseError(_) => None,
    }
}

/// The line that reports a reason, as bytes.
pub open spec fn failover_line_spec(reason: Seq<u8>) -> Seq<u8> {
    "{\"DD_EXTENSION_FAILOVER_REASON\":\"".spec_bytes() + reason + "\"}".spec_bytes()
}

/// The line that reports why the sidecar stands aside: a JSON object with
/// the one key `DD_EXTENSION_FAILOVER_REASON`.
pub fn failover_line(reason: &str) -> (line: Vec<u8>)
    ensures
        line@ == failover_line_spec(reason.spec_bytes()),
{
    let mut line: Vec<u8> = Vec::new();
    push_all(&mut line, "{\"DD_EXTENSION_FAILOVER_REASON\":\"".as_bytes());
    push_all(&mut line, reason.as_bytes());
    push_all(&mut line, "\"}".as_bytes());
    assert(line@ =~= failover_line_spec(reason.spec_bytes()));
    line
}

} // verus!
