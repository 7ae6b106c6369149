//! The settings of a shutdown run: the configuration file's model, its defaults, and how the
//! command line overrides it.
use vstd::prelude::*;
use crate::color::{UiColors, default_colors};
use crate::cli::{CliOptions, opt_view};
use crate::text::{chars_of, has_prefix};

verus! {

/// The `[ui]` table: the overlay's title, its optional background image, and its colors.
#[derive(Debug, Clone)]
pub struct UiConfig {
    pub title: String,
    pub background: Option<String>,
    pub colors: UiColors,
}

/// The `[behavior]` table: how often the session is polled, how often closing is retried, how
/// long a process has after `SIGTERM` before `SIGKILL`, and the two switches.
#[derive(Debug, Clone)]
pub struct BehaviorConfig {
    pub poll_interval_ms: u64,
    pub retry_interval_ms: u64,
    pub sigkill_timeout_ms: u64,
    pub dry_run: bool,
    pub no_exit: bool,
}

/// The `[commands]` table: the command run once every application has closed.
#[derive(Debug, Clone)]
pub struct CommandConfig {
    pub post: Option<String>,
}

/// The whole configuration.
#[derive(Debug, Clone)]
pub struct Config {
    pub ui: UiConfig,
    pub behavior: BehaviorConfig,
    pub commands: CommandConfig,
}

/// The title that the overlay shows unless the configuration names another.
pub open spec fn default_title() -> Seq<char> {
    "Ending session..."@
}

/// The `[ui]` table when the file gives none of its keys.
pub open spec fn is_default_ui(u: UiConfig) -> bool {
    &&& u.title@ == default_title()
    &&& u.background is None
    &&& u.colors == default_colors()
}

/// The `[behavior]` table when the file gives none of its keys.
pub open spec fn is_default_behavior(b: BehaviorConfig) -> bool {
    &&& b.poll_interval_ms == 150
    &&& b.retry_interval_ms == 5000
    &&& b.sigkill_timeout_ms == 10000
    &&& !b.dry_run
    &&& !b.no_exit
}

impl Default for UiConfig {
    fn default() -> (u: Self)
        ensures
            is_default_ui(u),
    {
        Self { title: "Ending session...".to_owned(), background: None, colors: UiColors::default() }
    }
}

impl Default for BehaviorConfig {
    fn default() -> (b: Self)
        ensures
            is_default_behavior(b),
    {
        Self {
            poll_interval_ms: 150,
            retry_interval_ms: 5_000,
            sigkill_timeout_ms: 10_000,
            dry_run: false,
            no_exit: false,
        }
    }
}

impl Default for CommandConfig {
    fn default() -> (c: Self)
        ensures
            c.post is None,
    {
        Self { post: None }
    }
}

impl Default for Config {
    fn default() -> (c: Self)
        ensures
            is_default_ui(c.ui),
            is_default_behavior(c.behavior),
            c.commands.post is None,
    {
        Self { ui: UiConfig::default(), behavior: BehaviorConfig::default(), commands: CommandConfig::default() }
    }
}

/// How often the session is polled: the configured interval, but never under 50 ms.
pub open spec fn poll_interval(b: BehaviorConfig) -> u64 {
    if b.poll_interval_ms < 50 {
        50
    } else {
        b.poll_interval_ms
    }
}

/// How often closing is retried: the configured interval, but never more often than polling.
pub open spec fn retry_interval(b: BehaviorConfig) -> u64 {
    if b.retry_interval_ms < poll_interval(b) {
        poll_interval(b)
    } else {
        b.retry_interval_ms
    }
}

/// The poll and retry intervals in milliseconds, as the run uses them.
pub fn intervals(b: &BehaviorConfig) -> (r: (u64, u64))
    ensures
        r == (poll_interval(*b), retry_interval(*b)),
        r.0 >= 50,
        r.1 >= r.0,
{
    let interval = if b.poll_interval_ms < 50 {
        50
    } else {
        b.poll_interval_ms
    };
    let retry = if b.retry_interval_ms < interval {
        interval
    } else {
        b.retry_interval_ms
    };
    (interval, retry)
}

/// Let the command line override the configuration: `--dry-run` turns the dry run on, and
/// `--post-cmd` replaces the post command. Nothing else changes.
pub fn apply_cli(config: &mut Config, options: &CliOptions)
    ensures
        final(config).behavior.dry_run == (old(config).behavior.dry_run || options.dry_run),
        opt_view(final(config).commands.post) == (if options.post_command is Some {
            opt_view(options.post_command)
        } else {
            opt_view(old(config).commands.post)
        }),
        final(config).behavior.poll_interval_ms == old(config).behavior.poll_interval_ms,
        final(config).behavior.retry_interval_ms == old(config).behavior.retry_interval_ms,
        final(config).behavior.sigkill_timeout_ms == old(config).behavior.sigkill_timeout_ms,
        final(config).behavior.no_exit == old(config).behavior.no_exit,
        final(config).ui == old(config).ui,
{
    if options.dry_run {
        config.behavior.dry_run = true;
    }
    match &options.post_command {
        Some(c) => {
            config.commands.post = Some(c.clone());
        },
        None => {},
    }
}

/// The part of a path after a leading `"~/"`, which names a place in the home directory;
/// nothing for a path that does not start so.
pub open spec fn home_relative_of(value: Seq<char>) -> Option<Seq<char>> {
    if "~/"@.is_prefix_of(value) {
        Some(value.skip(2))
    } else {
        None
    }
}

/// The part of `value` after a leading `"~/"`, if it starts so.
pub fn home_relative(value: &str) -> (r: Option<String>)
    ensures
        opt_view(r) == home_relative_of(value@),
{
    let v = chars_of(value);
    let prefix = chars_of("~/");
    if has_prefix(&v, &prefix) {
        proof {
            reveal_strlit("~/");
        }
        Some(value.substring_char(2, v.len()).to_owned())
    } else {
        None
    }
}

} // verus!
