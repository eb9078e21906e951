use vstd::prelude::*;

verus! {

/// A function to trace, named in the configuration.
#[derive(Debug)]
pub struct Target {
    pub name: String,
}

/// The configuration: the functions to trace.
#[derive(Debug)]
pub struct Config {
    pub targets: Vec<Target>,
}

/// Why a configuration was refused.
#[derive(Debug)]
pub enum ConfigError {
    /// The file could not be read.
    Io,
    /// The file is not valid YAML of the expected shape.
    Parse,
    /// No target is named.
    NoTargets,
}

/// One entry of the `targets` list, as the YAML parser gave it: a string, a
/// mapping (with its first key if that key is a string), or anything else.
pub enum RawTarget {
    Name(String),
    Mapping(Option<String>),
    Other,
}

/// The name a raw entry stands for: the string itself, the first key of a
/// mapping, and empty otherwise.
pub open spec fn raw_target_name(t: RawTarget) -> Seq<char> {
    match t {
        RawTarget::Name(s) => s@,
        RawTarget::Mapping(Some(k)) => k@,
        _ => Seq::empty(),
    }
}

fn target_from_raw(t: RawTarget) -> (r: Target)
    ensures
        r.name@ == raw_target_name(t),
{
    match t {
        RawTarget::Name(s) => Target { name: s },
        RawTarget::Mapping(Some(k)) => Target { name: k },
        _ => Target { name: String::new() },
    }
}

/// Builds the configuration from the raw `targets` entries; an empty list is
/// refused.
pub fn from_raw_targets(raw: Vec<RawTarget>) -> (r: Result<Config, ConfigError>)
    ensures
        raw@.len() == 0 <==> r matches Err(ConfigError::NoTargets),
        r is Ok || r matches Err(ConfigError::NoTargets),
        r matches Ok(c) ==> c.targets@.len() == raw@.len() && forall|k: int| 0 <= k < raw@.len() ==> #[trigger] c.targets@[k].name@ == raw_target_name(raw@[k]),
{
    let ghost raw_view = raw@;
    let mut targets: Vec<Target> = Vec::new();
    let mut raw = raw;
    let n = raw.len();
    let mut rest: Vec<RawTarget> = Vec::new();
    while raw.len() > 0
        invariant
            n == raw_view.len(),
            raw@.len() + rest@.len() == n,
            forall|k: int| 0 <= k < raw@.len() ==> raw@[k] == raw_view[k],
            forall|k: int| 0 <= k < rest@.len() ==> rest@[k] == raw_view[n - 1 - k],
        decreases raw@.len(),
    {
        let t = raw.pop().unwrap();
        rest.push(t);
    }
    while rest.len() > 0
        invariant
            n == raw_view.len(),
            targets@.len() + rest@.len() == n,
            forall|k: int| 0 <= k < rest@.len() ==> rest@[k] == raw_view[n - 1 - k],
            forall|k: int| 0 <= k < targets@.len() ==> #[trigger] targets@[k].name@ == raw_target_name(raw_view[k]),
        decreases rest@.len(),
    {
        let t = rest.pop().unwrap();
        targets.push(target_from_raw(t));
    }
    if targets.len() == 0 {
        return Err(ConfigError::NoTargets);
    }
    Ok(Config { targets })
}

} // verus!
