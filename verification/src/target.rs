//! Which mount point and which mappings a command is about.

use vstd::prelude::*;
use crate::config::is_named;
use crate::config::AppConfig;
use crate::config::SyncMapping;

verus! {

/// Whether `path` is absolute on this platform.
///
/// Trusted: calls `std::path::Path::is_absolute`. What counts as absolute differs
/// between platforms, so nothing is claimed of the answer.
#[verifier::external_body]
fn path_is_absolute(path: &str) -> (absolute: bool) {
    std::path::Path::new(path).is_absolute()
}

/// The text of an optional string.
pub open spec fn opt_text(s: Option<String>) -> Option<Seq<char>> {
    match s {
        Some(t) => Some(t@),
        None => None,
    }
}

/// The text of an optional string slice.
pub open spec fn opt_str(s: Option<&str>) -> Option<Seq<char>> {
    match s {
        Some(t) => Some(t@),
        None => None,
    }
}

/// What a command is about: the mount point of the secondary volume, and the alias
/// of the one mapping it is limited to, if any.
#[derive(Debug, PartialEq, Eq)]
pub struct Target {
    pub ssd_mount: String,
    pub name_filter: Option<String>,
}

/// A [`Target`] as plain text.
pub struct TargetView {
    pub ssd_mount: Seq<char>,
    pub name_filter: Option<Seq<char>>,
}

impl View for Target {
    type V = TargetView;

    open spec fn view(&self) -> TargetView {
        TargetView { ssd_mount: self.ssd_mount@, name_filter: opt_text(self.name_filter) }
    }
}

/// Why no target could be found.
#[derive(Debug, PartialEq, Eq)]
pub enum TargetError {
    /// No mount point was given and none is configured.
    MountNotSpecified,
    /// The mapping `name` has the relative secondary path `ssd`, and no default
    /// mount point is configured to put it under.
    RelativeMapping { name: String, ssd: String },
}

/// A [`TargetError`] as plain text.
pub enum TargetErrorView {
    MountNotSpecified,
    RelativeMapping { name: Seq<char>, ssd: Seq<char> },
}

impl View for TargetError {
    type V = TargetErrorView;

    open spec fn view(&self) -> TargetErrorView {
        match *self {
            TargetError::MountNotSpecified => TargetErrorView::MountNotSpecified,
            TargetError::RelativeMapping { name, ssd } => TargetErrorView::RelativeMapping { name: name@, ssd: ssd@ },
        }
    }
}

/// The outcome of a resolution as plain text.
pub open spec fn outcome_view(outcome: Result<Target, TargetError>) -> Result<TargetView, TargetErrorView> {
    match outcome {
        Ok(t) => Ok(t@),
        Err(e) => Err(e@),
    }
}

/// The mount point to use: the one given, else the configured default.
pub open spec fn mount_or_default(explicit: Option<Seq<char>>, default_mount: Option<Seq<char>>) -> Option<
    Seq<char>,
> {
    if explicit is Some {
        explicit
    } else {
        default_mount
    }
}

/// The position of the first mapping from `from` on that has the alias `name`, or -1.
pub open spec fn first_named(sync: Seq<SyncMapping>, name: Seq<char>, from: int) -> int
    decreases sync.len() - from,
{
    if from < 0 || from >= sync.len() {
        -1
    } else if is_named(sync[from], name) {
        from
    } else {
        first_named(sync, name, from + 1)
    }
}

/// A position that holds the alias, with none before it, is the first one.
pub proof fn lemma_first_named(sync: Seq<SyncMapping>, name: Seq<char>, from: int, at: int)
    requires
        0 <= from,
        at == -1 || from <= at < sync.len(),
        at >= 0 ==> is_named(sync[at], name),
        forall|j: int| from <= j < (if at >= 0 { at } else { sync.len() as int }) ==> !is_named(sync[j], name),
    ensures
        first_named(sync, name, from) == at,
    decreases sync.len() - from,
{
    if from < sync.len() && from != at {
        lemma_first_named(sync, name, from + 1, at);
    }
}

/// The mappings with the alias `name`, in their order.
pub open spec fn select_named(sync: Seq<SyncMapping>, name: Seq<char>) -> Seq<SyncMapping>
    decreases sync.len(),
{
    if sync.len() == 0 {
        Seq::empty()
    } else if is_named(sync.last(), name) {
        select_named(sync.drop_last(), name).push(sync.last())
    } else {
        select_named(sync.drop_last(), name)
    }
}

/// The mappings that a command is limited to: all of them without a filter.
pub open spec fn filtered(sync: Seq<SyncMapping>, name: Option<Seq<char>>) -> Seq<SyncMapping> {
    match name {
        Some(n) => select_named(sync, n),
        None => sync,
    }
}

/// The mount point that a mapping brings along: its own secondary path where that
/// is absolute, else the configured default.
pub open spec fn mount_for(mapping: SyncMapping, absolute: bool, default_mount: Option<Seq<char>>) -> Option<
    Seq<char>,
> {
    if absolute {
        Some(mapping.ssd@)
    } else {
        default_mount
    }
}

/// What the argument of a command and its `--name` option resolve to.
///
/// An argument that is a directory on disk is the mount point. An argument that is
/// the alias of a mapping selects that mapping and its mount point. Any other
/// argument is taken as a mount point all the same. Without an argument, the mapping
/// that `--name` selects, or the only mapping there is, gives the mount point if its
/// secondary path is absolute; else the configured default does. `--name` always
/// decides the filter where it is given. `absolute` tells for each mapping whether
/// its secondary path is absolute.
pub open spec fn target_of(
    positional: Option<Seq<char>>,
    explicit_name: Option<Seq<char>>,
    default_mount: Option<Seq<char>>,
    sync: Seq<SyncMapping>,
    positional_is_dir: bool,
    absolute: Seq<bool>,
) -> Result<TargetView, TargetErrorView> {
    match positional {
        Some(arg) => {
            let i = first_named(sync, arg, 0);
            if positional_is_dir || i < 0 {
                Ok(TargetView { ssd_mount: arg, name_filter: explicit_name })
            } else {
                match mount_for(sync[i], absolute[i], default_mount) {
                    Some(mount) => Ok(
                        TargetView {
                            ssd_mount: mount,
                            name_filter: if explicit_name is Some {
                                explicit_name
                            } else {
                                Some(arg)
                            },
                        },
                    ),
                    None => Err(TargetErrorView::RelativeMapping { name: arg, ssd: sync[i].ssd@ }),
                }
            }
        },
        None => {
            let i = if explicit_name is Some {
                first_named(sync, explicit_name->0, 0)
            } else {
                -1
            };
            if i >= 0 && absolute[i] {
                Ok(TargetView { ssd_mount: sync[i].ssd@, name_filter: explicit_name })
            } else if explicit_name is None && sync.len() == 1 && absolute[0] {
                Ok(TargetView { ssd_mount: sync[0].ssd@, name_filter: opt_text(sync[0].name) })
            } else {
                match default_mount {
                    Some(mount) => Ok(TargetView { ssd_mount: mount, name_filter: explicit_name }),
                    None => Err(TargetErrorView::MountNotSpecified),
                }
            }
        },
    }
}

/// The mount point to use: the one given, else the configured default.
pub fn resolve_ssd_mount(explicit: Option<&str>, config: &AppConfig) -> (mount: Result<String, TargetError>)
    ensures
        match mount {
            Ok(m) => Some(m@) == mount_or_default(opt_str(explicit), opt_text(config.machine.ssd_mount)),
            Err(e) => e == TargetError::MountNotSpecified && explicit is None && config.machine.ssd_mount is None,
        },
{
    match explicit {
        Some(mount) => Ok(mount.to_string()),
        None => match &config.machine.ssd_mount {
            Some(mount) => Ok(mount.clone()),
            None => Err(TargetError::MountNotSpecified),
        },
    }
}

/// The mappings that a command is limited to.
pub fn filter_mappings<'a>(mappings: &'a [SyncMapping], name: Option<&str>) -> (chosen: Vec<&'a SyncMapping>)
    ensures
        chosen@.map_values(|m: &SyncMapping| *m) == filtered(mappings@, opt_str(name)),
{
    let mut chosen: Vec<&'a SyncMapping> = Vec::new();
    let mut i: usize = 0;
    while i < mappings.len()
        invariant
            i <= mappings@.len(),
            chosen@.map_values(|m: &SyncMapping| *m) == filtered(mappings@.take(i as int), opt_str(name)),
        decreases mappings@.len() - i,
    {
        let ghost before = chosen@.map_values(|m: &SyncMapping| *m);
        assert(mappings@.take(i + 1).drop_last() =~= mappings@.take(i as int));
        assert(mappings@.take(i + 1).last() == mappings@[i as int]);
        let keep = match name {
            Some(n) => mapping_is_named(&mappings[i], n),
            None => true,
        };
        if keep {
            chosen.push(&mappings[i]);
            assert(chosen@.map_values(|m: &SyncMapping| *m) =~= before.push(mappings@[i as int]));
        }
        assert(name is None ==> mappings@.take(i + 1) =~= mappings@.take(i as int).push(mappings@[i as int]));
        i += 1;
    }
    assert(mappings@.take(i as int) =~= mappings@);
    chosen
}

/// Whether the mapping carries the alias `name`.
pub fn mapping_is_named(mapping: &SyncMapping, name: &str) -> (named: bool)
    ensures
        named == is_named(*mapping, name@),
{
    match &mapping.name {
        Some(alias) => crate::order::rank_paths(alias.as_str(), name) == crate::order::Rank::Same,
        None => false,
    }
}

/// The mount point that a mapping brings along by itself: its secondary path, where
/// that is absolute on this platform.
pub fn ssd_mount_from_mapping(mapping: &SyncMapping) -> (mount: Option<String>)
    ensures
        mount is Some ==> mount->0@ == mapping.ssd@,
{
    mount_if_absolute(mapping, path_is_absolute(mapping.ssd.as_str()))
}

/// The mount point that a mapping brings along by itself, given whether its
/// secondary path is absolute: that path if it is, none if it is not.
pub fn mount_if_absolute(mapping: &SyncMapping, absolute: bool) -> (mount: Option<String>)
    ensures
        opt_text(mount) == mount_for(*mapping, absolute, None),
{
    if absolute {
        Some(mapping.ssd.clone())
    } else {
        None
    }
}

/// For each mapping, whether its secondary path is absolute on this platform.
pub fn absolute_flags(config: &AppConfig) -> (flags: Vec<bool>)
    ensures
        flags@.len() == config.sync@.len(),
{
    let mut flags: Vec<bool> = Vec::new();
    let mut i: usize = 0;
    while i < config.sync.len()
        invariant
            i <= config.sync@.len(),
            flags@.len() == i,
        decreases config.sync@.len() - i,
    {
        flags.push(path_is_absolute(config.sync[i].ssd.as_str()));
        i += 1;
    }
    flags
}

/// Resolves the argument of a command and its `--name` option, given whether the
/// argument is a directory on disk and which mappings have an absolute secondary path.
pub fn resolve_target_with(
    positional: Option<&str>,
    explicit_name: Option<&str>,
    config: &AppConfig,
    positional_is_dir: bool,
    absolute: &[bool],
) -> (outcome: Result<Target, TargetError>)
    requires
        absolute@.len() == config.sync@.len(),
    ensures
        outcome_view(outcome) == target_of(
            opt_str(positional),
            opt_str(explicit_name),
            opt_text(config.machine.ssd_mount),
            config.sync@,
            positional_is_dir,
            absolute@,
        ),
{
    let name_filter: Option<String> = match explicit_name {
        Some(n) => Some(n.to_string()),
        None => None,
    };
    match positional {
        Some(arg) => {
            let found = config.position_of_mapping(arg);
            proof {
                lemma_first_named(
                    config.sync@,
                    arg@,
                    0,
                    match found {
                        Some(i) => i as int,
                        None => -1,
                    },
                );
            }
            if positional_is_dir {
                return Ok(Target { ssd_mount: arg.to_string(), name_filter });
            }
            match found {
                Some(i) => {
                    let mapping = &config.sync[i];
                    let mount: Option<String> = if absolute[i] {
                        Some(mapping.ssd.clone())
                    } else {
                        match &config.machine.ssd_mount {
                            Some(m) => Some(m.clone()),
                            None => None,
                        }
                    };
                    match mount {
                        Some(ssd_mount) => {
                            let name_filter = match name_filter {
                                Some(n) => Some(n),
                                None => Some(arg.to_string()),
                            };
                            Ok(Target { ssd_mount, name_filter })
                        },
                        None => Err(
                            TargetError::RelativeMapping { name: arg.to_string(), ssd: mapping.ssd.clone() },
                        ),
                    }
                },
                None => Ok(Target { ssd_mount: arg.to_string(), name_filter }),
            }
        },
        None => {
            match explicit_name {
                Some(n) => {
                    let found = config.position_of_mapping(n);
                    proof {
                        lemma_first_named(
                            config.sync@,
                            n@,
                            0,
                            match found {
                                Some(i) => i as int,
                                None => -1,
                            },
                        );
                    }
                    match found {
                        Some(i) => {
                            if absolute[i] {
                                return Ok(Target { ssd_mount: config.sync[i].ssd.clone(), name_filter });
                            }
                        },
                        None => {},
                    }
                },
                None => {
                    if config.sync.len() == 1 && absolute[0] {
                        let auto_name = match &config.sync[0].name {
                            Some(alias) => Some(alias.clone()),
                            None => None,
                        };
                        return Ok(Target { ssd_mount: config.sync[0].ssd.clone(), name_filter: auto_name });
                    }
                },
            }
            match &config.machine.ssd_mount {
                Some(m) => Ok(Target { ssd_mount: m.clone(), name_filter }),
                None => Err(TargetError::MountNotSpecified),
            }
        },
    }
}

/// Resolves the argument of a command and its `--name` option, given whether the
/// argument is a directory on disk. Which secondary paths are absolute is asked of
/// the platform.
pub fn resolve_target(
    positional: Option<&str>,
    explicit_name: Option<&str>,
    config: &AppConfig,
    positional_is_dir: bool,
) -> (outcome: Result<Target, TargetError>)
    ensures
        exists|absolute: Seq<bool>|
            absolute.len() == config.sync@.len() && outcome_view(outcome) == #[trigger] target_of(
                opt_str(positional),
                opt_str(explicit_name),
                opt_text(config.machine.ssd_mount),
                config.sync@,
                positional_is_dir,
                absolute,
            ),
{
    let flags = absolute_flags(config);
    let outcome = resolve_target_with(positional, explicit_name, config, positional_is_dir, flags.as_slice());
    assert(outcome_view(outcome) == target_of(
        opt_str(positional),
        opt_str(explicit_name),
        opt_text(config.machine.ssd_mount),
        config.sync@,
        positional_is_dir,
        flags@,
    ));
    outcome
}

impl TargetError {
    /// The message that tells the user what to do.
    pub fn message(&self) -> (text: String)
        ensures
            text@ == error_text(self@),
    {
        match self {
            TargetError::MountNotSpecified => {
                "SSD mount point not specified. Either pass it as an argument or set a default with `ssd-syncer set-ssd <path>`.".to_string()
            },
            TargetError::RelativeMapping { name, ssd } => {
                let mut text = "Mapping '".to_string();
                vstd::string::StringExecFns::append(&mut text, name.as_str());
                vstd::string::StringExecFns::append(&mut text, "' has a relative SSD path '");
                vstd::string::StringExecFns::append(&mut text, ssd.as_str());
                vstd::string::StringExecFns::append(
                    &mut text,
                    "'. Set a default SSD mount with `ssd-syncer set-ssd <path>` or use an absolute path in `--ssd`.",
                );
                text
            },
        }
    }
}

/// The message for an error.
pub open spec fn error_text(error: TargetErrorView) -> Seq<char> {
    match error {
        TargetErrorView::MountNotSpecified => "SSD mount point not specified. Either pass it as an argument or set a default with `ssd-syncer set-ssd <path>`."@,
        TargetErrorView::RelativeMapping { name, ssd } => "Mapping '"@ + name + "' has a relative SSD path '"@ + ssd
            + "'. Set a default SSD mount with `ssd-syncer set-ssd <path>` or use an absolute path in `--ssd`."@,
    }
}

} // verus!
