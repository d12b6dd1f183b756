//! The source registry: which logs are monitored, and how their lines read.

use crate::grammar::{pattern_compiles, Grammar};
use vstd::prelude::*;
use vstd::string::StringExecFns;

verus! {

/// Directory that holds the monitored logs.
pub const LOG_DIR: &'static str = r"C:\ProgramData\Infopercept\logs";

/// Time between two poll cycles, in milliseconds.
pub const CHECK_INTERVAL_MILLIS: u64 = 100;

/// Name of the exported counter family.
pub const METRIC_NAME: &'static str = "infopercept_log_count";

/// Help text of the exported counter family.
pub const METRIC_HELP: &'static str = "Number of log entries";

/// Label that carries the source's name.
pub const SOURCE_LABEL: &'static str = "log_type";

/// Label that carries the severity.
pub const SEVERITY_LABEL: &'static str = "severity";

/// Grammar of a bracketed line: `TIMESTAMP [SEVERITY] MESSAGE`.
pub const BRACKETED_GRAMMAR: &'static str =
    r"(?P<time>\d{4}-\d{2}-\d{2} \d{2}:\d{2}:\d{2}\.\d{3} [+-]\d{2}:\d{2}) \[(?P<severity>\w+)\] (?P<message>.*)";

/// Timestamp format of a bracketed line.
pub const BRACKETED_TIME_FORMAT: &'static str = "%Y-%m-%d %H:%M:%S.%f %z";

/// Grammar of an install-log banner: `=== MESSAGE TIMESTAMP ===`. It captures
/// no severity.
pub const DELIMITED_GRAMMAR: &'static str =
    r"=== (?P<message>.*) (?P<time>\d{2}-\d{2}-\d{4}  \d{2}:\d{2}:\d{2})  .*===";

/// Timestamp format of an install-log banner.
pub const DELIMITED_TIME_FORMAT: &'static str = "%d-%m-%Y  %H:%M:%S";

/// One monitored source.
#[derive(Debug)]
pub struct LogConfig {
    /// Name of the source, which labels its counters.
    pub name: String,
    /// Glob pattern of the files that belong to the source.
    pub file_pattern: String,
    /// Grammar of a structured line: a regular expression with a capture
    /// group `time` and, for grammars that carry one, a group `severity`.
    pub regex: Grammar,
    /// `strftime` format of the `time` capture.
    pub time_format: String,
}

/// A source as contracts see it.
pub struct LogConfigView {
    pub name: Seq<char>,
    pub file_pattern: Seq<char>,
    pub regex: Seq<char>,
    pub time_format: Seq<char>,
}

impl View for LogConfig {
    type V = LogConfigView;

    open spec fn view(&self) -> LogConfigView {
        LogConfigView {
            name: self.name@,
            file_pattern: self.file_pattern@,
            regex: self.regex@,
            time_format: self.time_format@,
        }
    }
}

/// Why a source cannot be used.
#[derive(Clone, Debug, PartialEq, Eq)]
pub enum ConfigError {
    /// The grammar of the source named `source` does not compile.
    InvalidGrammar { source: String },
}

/// The views of a list of sources, in order.
pub open spec fn views(configs: Seq<LogConfig>) -> Seq<LogConfigView> {
    configs.map_values(|c: LogConfig| c@)
}

/// The source `name` with bracketed lines, in files `LOG_DIR\name*.log`.
pub open spec fn bracketed_source(name: Seq<char>) -> LogConfigView {
    LogConfigView {
        name,
        file_pattern: LOG_DIR@ + r"\"@ + name + "*.log"@,
        regex: BRACKETED_GRAMMAR@,
        time_format: BRACKETED_TIME_FORMAT@,
    }
}

/// The source `name` with install-log banners, in the file `LOG_DIR\name.log`.
pub open spec fn delimited_source(name: Seq<char>) -> LogConfigView {
    LogConfigView {
        name,
        file_pattern: LOG_DIR@ + r"\"@ + name + ".log"@,
        regex: DELIMITED_GRAMMAR@,
        time_format: DELIMITED_TIME_FORMAT@,
    }
}

/// The built-in registry, in polling order: three sources, all with
/// bracketed lines.
pub open spec fn builtin_sources() -> Seq<LogConfigView> {
    seq![
        bracketed_source("IvsAgent"@),
        bracketed_source("IvsSync"@),
        bracketed_source("IvsTray"@),
    ]
}

/// The extended registry, in polling order: the status-update log, the
/// built-in sources and the two install logs.
pub open spec fn extended_sources() -> Seq<LogConfigView> {
    seq![
        bracketed_source("ArStatusUpdate"@),
        bracketed_source("IvsAgent"@),
        bracketed_source("IvsSync"@),
        bracketed_source("IvsTray"@),
        delimited_source("osquery-install"@),
        delimited_source("wazuh-install"@),
    ]
}

/// Name of the first source of the extended registry whose grammar does not
/// compile, where there is one: the first source has a bracketed grammar,
/// the fifth is the first with a delimited one.
pub open spec fn first_invalid_extended() -> Seq<char> {
    if pattern_compiles(BRACKETED_GRAMMAR@) {
        "osquery-install"@
    } else {
        "ArStatusUpdate"@
    }
}

/// Whether no two sources of a registry have the same name.
pub open spec fn distinct_names(configs: Seq<LogConfigView>) -> bool {
    forall|i: int, j: int|
        0 <= i < j < configs.len() ==> (#[trigger] configs[i]).name != (#[trigger] configs[j]).name
}

/// In the built-in registry and in the extended one, a name stands for one
/// source alone.
pub proof fn lemma_builtin_names_distinct()
    ensures
        builtin_sources().len() == 3,
        distinct_names(builtin_sources()),
        extended_sources().len() == 6,
        distinct_names(extended_sources()),
{
    reveal_strlit("ArStatusUpdate");
    reveal_strlit("IvsAgent");
    reveal_strlit("IvsSync");
    reveal_strlit("IvsTray");
    reveal_strlit("osquery-install");
    reveal_strlit("wazuh-install");
    assert("IvsSync"@[3] != "IvsTray"@[3]);
}

impl LogConfig {
    /// A source, with its grammar compiled. Fails where `regex` does not
    /// compile.
    pub fn new(name: &str, file_pattern: &str, regex: &str, time_format: &str) -> (config: Result<
        LogConfig,
        ConfigError,
    >)
        ensures
            config is Ok <==> pattern_compiles(regex@),
            config matches Ok(made) ==> made@ == (LogConfigView {
                name: name@,
                file_pattern: file_pattern@,
                regex: regex@,
                time_format: time_format@,
            }),
            config matches Err(ConfigError::InvalidGrammar { source }) ==> source@ == name@,
    {
        match Grammar::new(regex) {
            Some(grammar) => Ok(
                LogConfig {
                    name: String::from_str(name),
                    file_pattern: String::from_str(file_pattern),
                    regex: grammar,
                    time_format: String::from_str(time_format),
                },
            ),
            None => Err(ConfigError::InvalidGrammar { source: String::from_str(name) }),
        }
    }
}

/// Adds the source `name` with bracketed lines to the registry.
fn add_bracketed(configs: &mut Vec<LogConfig>, name: &str) -> (added: Result<(), ConfigError>)
    ensures
        added is Ok <==> pattern_compiles(BRACKETED_GRAMMAR@),
        added is Ok ==> views(final(configs)@) == views(old(configs)@).push(
            bracketed_source(name@),
        ),
        added matches Err(ConfigError::InvalidGrammar { source }) ==> source@ == name@,
{
    let file_pattern = String::from_str(LOG_DIR).concat(r"\").concat(name).concat("*.log");
    match LogConfig::new(name, file_pattern.as_str(), BRACKETED_GRAMMAR, BRACKETED_TIME_FORMAT) {
        Ok(config) => {
            configs.push(config);
            assert(views(configs@) =~= views(old(configs)@).push(bracketed_source(name@)));
            Ok(())
        },
        Err(error) => Err(error),
    }
}

/// Adds the source `name` with install-log banners to the registry.
fn add_delimited(configs: &mut Vec<LogConfig>, name: &str) -> (added: Result<(), ConfigError>)
    ensures
        added is Ok <==> pattern_compiles(DELIMITED_GRAMMAR@),
        added is Ok ==> views(final(configs)@) == views(old(configs)@).push(
            delimited_source(name@),
        ),
        added matches Err(ConfigError::InvalidGrammar { source }) ==> source@ == name@,
{
    let file_pattern = String::from_str(LOG_DIR).concat(r"\").concat(name).concat(".log");
    match LogConfig::new(name, file_pattern.as_str(), DELIMITED_GRAMMAR, DELIMITED_TIME_FORMAT) {
        Ok(config) => {
            configs.push(config);
            assert(views(configs@) =~= views(old(configs)@).push(delimited_source(name@)));
            Ok(())
        },
        Err(error) => Err(error),
    }
}

/// Loads the built-in registry: the three sources with bracketed lines, in
/// the order in which they are polled. Fails where the bracketed grammar does
/// not compile, and names the first source, which has it.
pub fn get_log_configs() -> (loaded: Result<Vec<LogConfig>, ConfigError>)
    ensures
        loaded is Ok <==> pattern_compiles(BRACKETED_GRAMMAR@),
        loaded matches Ok(configs) ==> views(configs@) == builtin_sources(),
        loaded matches Err(ConfigError::InvalidGrammar { source }) ==> source@ == "IvsAgent"@,
{
    let mut configs: Vec<LogConfig> = Vec::new();
    assert(views(configs@) =~= Seq::<LogConfigView>::empty());
    add_bracketed(&mut configs, "IvsAgent")?;
    add_bracketed(&mut configs, "IvsSync")?;
    add_bracketed(&mut configs, "IvsTray")?;
    assert(views(configs@) =~= builtin_sources());
    Ok(configs)
}

/// Loads the extended registry: the status-update log, the built-in sources
/// and the two install logs, in the order in which they are polled. Fails
/// where one of the two grammars does not compile, and names the first source
/// that has it.
pub fn get_extended_log_configs() -> (loaded: Result<Vec<LogConfig>, ConfigError>)
    ensures
        loaded is Ok <==> pattern_compiles(BRACKETED_GRAMMAR@) && pattern_compiles(
            DELIMITED_GRAMMAR@,
        ),
        loaded matches Ok(configs) ==> views(configs@) == extended_sources(),
        loaded matches Err(ConfigError::InvalidGrammar { source }) ==> source@
            == first_invalid_extended(),
{
    let mut configs: Vec<LogConfig> = Vec::new();
    assert(views(configs@) =~= Seq::<LogConfigView>::empty());
    add_bracketed(&mut configs, "ArStatusUpdate")?;
    add_bracketed(&mut configs, "IvsAgent")?;
    add_bracketed(&mut configs, "IvsSync")?;
    add_bracketed(&mut configs, "IvsTray")?;
    add_delimited(&mut configs, "osquery-install")?;
    add_delimited(&mut configs, "wazuh-install")?;
    assert(views(configs@) =~= extended_sources());
    Ok(configs)
}

} // verus!
