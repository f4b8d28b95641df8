//! Immutable proxy server configuration.

use vstd::hash_set::StringHashSet;
use vstd::prelude::*;

use crate::address::WebUrl;
use crate::config::helpers;
use crate::cooldown;
use crate::cooldown::cutoff_from;
use crate::text;
use crate::text::{to_chars, to_lower};
use crate::time;
use crate::time::{read_clock, Duration};

verus! {

/// Proxy server configuration (immutable after startup).
pub struct Config {
    /// Upstream registry index URL.
    index_url: WebUrl,
    /// Upstream crate download URL.
    upstream_url: WebUrl,
    /// External URL of this proxy server.
    proxy_url: WebUrl,
    /// Registry index cache directory.
    index_dir: String,
    /// Crate files cache directory.
    crates_dir: String,
    /// Index entry cache Time-to-Live.
    cache_ttl: Duration,
    /// Sparse-index age-gating window; a zero duration disables filtering.
    cooldown: Duration,
    /// Lower-cased crate names exempt from age-gating (served unfiltered).
    overrides: StringHashSet,
    /// When set, the download endpoint also refuses crate versions newer than
    /// the cooldown (not just hiding them from the index).
    restrict_downloads: bool,
}

/// What a configuration holds.
pub struct ConfigView {
    /// Upstream registry index URL.
    pub index_url: Seq<char>,
    /// Upstream crate download URL.
    pub upstream_url: Seq<char>,
    /// External URL of this proxy server.
    pub proxy_url: Seq<char>,
    /// Registry index cache directory.
    pub index_dir: Seq<char>,
    /// Crate files cache directory.
    pub crates_dir: Seq<char>,
    /// Index entry cache Time-to-Live.
    pub cache_ttl: Duration,
    /// Age-gating window.
    pub cooldown: Duration,
    /// Crate names exempt from age-gating.
    pub overrides: Set<Seq<char>>,
    /// Downloads are age-gated too.
    pub restrict_downloads: bool,
}

impl View for Config {
    type V = ConfigView;

    closed spec fn view(&self) -> ConfigView {
        ConfigView {
            index_url: self.index_url@,
            upstream_url: self.upstream_url@,
            proxy_url: self.proxy_url@,
            index_dir: self.index_dir@,
            crates_dir: self.crates_dir@,
            cache_ttl: self.cache_ttl,
            cooldown: self.cooldown,
            overrides: self.overrides@,
            restrict_downloads: self.restrict_downloads,
        }
    }
}

impl ConfigView {
    /// A crate is served unfiltered at all times. Letter case does not matter.
    pub open spec fn exempt(self, name: Seq<char>) -> bool {
        self.overrides.contains(text::lowered(name))
    }

    /// The cutoff of a crate, given the seconds on the clock; a clock that
    /// stands before 1970 gives none.
    pub open spec fn cutoff_at(self, name: Seq<char>, now: Option<u64>) -> Option<u64> {
        if self.exempt(name) {
            None
        } else {
            match now {
                Some(secs) => cooldown::cutoff_at(secs, self.cooldown.secs()),
                None => None,
            }
        }
    }

    /// Some reading of the clock gives a crate this cutoff.
    pub open spec fn cutoff_possible(self, name: Seq<char>, cutoff: Option<u64>) -> bool {
        exists|now: Option<u64>| cutoff == #[trigger] self.cutoff_at(name, now)
    }

    /// The cutoff of a crate at the time that a reading of the system clock
    /// gave.
    pub open spec fn cutoff_read(self, name: Seq<char>, cutoff: Option<u64>) -> bool {
        exists|now: Option<u64>|
            time::clock_reads(now) && cutoff == #[trigger] self.cutoff_at(name, now)
    }

    /// The cooldown window (seconds) that goes with a cutoff.
    pub open spec fn window(self, cutoff: Option<u64>) -> Option<u64> {
        match cutoff {
            Some(_) => Some(self.cooldown.secs()),
            None => None,
        }
    }
}

impl Config {
    /// Builds a configuration from explicit values, deriving the `index`/`crates`
    /// cache subdirectories from `cache_dir`.
    #[must_use]
    pub fn new(
        index_url: WebUrl,
        upstream_url: WebUrl,
        proxy_url: WebUrl,
        cache_dir: &str,
        cache_ttl: Duration,
        cooldown: Duration,
        overrides: StringHashSet,
        restrict_downloads: bool,
    ) -> (r: Self)
        ensures
            r@ == (ConfigView {
                index_url: index_url@,
                upstream_url: upstream_url@,
                proxy_url: proxy_url@,
                index_dir: helpers::joined_path(cache_dir@, "index"@),
                crates_dir: helpers::joined_path(cache_dir@, "crates"@),
                cache_ttl,
                cooldown,
                overrides: overrides@,
                restrict_downloads,
            }),
    {
        Config {
            index_url,
            upstream_url,
            proxy_url,
            index_dir: helpers::join_path(cache_dir, "index"),
            crates_dir: helpers::join_path(cache_dir, "crates"),
            cache_ttl,
            cooldown,
            overrides,
            restrict_downloads,
        }
    }

    /// The age-gating cutoff (unix seconds) for `name` at the time `now_secs`,
    /// or `None` when it is served unfiltered.
    pub fn cutoff_at(&self, name: &str, now_secs: Option<u64>) -> (r: Option<u64>)
        ensures
            r == self@.cutoff_at(name@, now_secs),
    {
        let chars = to_chars(name);
        let lowered = to_lower(chars.as_slice());
        if self.overrides.contains(lowered.as_str()) {
            return None;
        }
        match now_secs {
            Some(secs) => cutoff_from(secs, self.cooldown),
            None => None,
        }
    }

    /// The age-gating cutoff (unix seconds) for `name`, or `None` when it is
    /// served unfiltered — cooldown disabled, or the crate is overridden.
    ///
    /// The time is read off the clock. Shared by the index serve path and the
    /// `--restrict-downloads` check.
    pub fn cutoff_for(&self, name: &str) -> (r: Option<u64>)
        ensures
            self@.cutoff_possible(name@, r),
            self@.cutoff_read(name@, r),
            self@.exempt(name@) ==> r is None,
            self@.cooldown.secs() == 0 ==> r is None,
    {
        let now = read_clock();
        let cutoff = self.cutoff_at(name, now);
        assert(cutoff == self@.cutoff_at(name@, now));
        cutoff
    }

    /// Gets the upstream registry index URL.
    pub fn index_url(&self) -> (r: &WebUrl)
        ensures
            r@ == self@.index_url,
    {
        &self.index_url
    }

    /// Gets the upstream crate download URL.
    pub fn upstream_url(&self) -> (r: &WebUrl)
        ensures
            r@ == self@.upstream_url,
    {
        &self.upstream_url
    }

    /// Gets the external URL of this proxy server.
    pub fn proxy_url(&self) -> (r: &WebUrl)
        ensures
            r@ == self@.proxy_url,
    {
        &self.proxy_url
    }

    /// Gets the registry index cache directory.
    pub fn index_dir(&self) -> (r: &str)
        ensures
            r@ == self@.index_dir,
    {
        self.index_dir.as_str()
    }

    /// Gets the crate files cache directory.
    pub fn crates_dir(&self) -> (r: &str)
        ensures
            r@ == self@.crates_dir,
    {
        self.crates_dir.as_str()
    }

    /// Gets the index entry cache Time-to-Live.
    pub fn cache_ttl(&self) -> (r: Duration)
        ensures
            r == self@.cache_ttl,
    {
        self.cache_ttl
    }

    /// Gets the age-gating window.
    pub fn cooldown(&self) -> (r: Duration)
        ensures
            r == self@.cooldown,
    {
        self.cooldown
    }

    /// Gets the number of crates exempt from age-gating.
    pub fn override_count(&self) -> (r: usize)
        ensures
            r == self@.overrides.len(),
    {
        self.overrides.len()
    }

    /// Tells whether downloads are age-gated too.
    pub fn restrict_downloads(&self) -> (r: bool)
        ensures
            r == self@.restrict_downloads,
    {
        self.restrict_downloads
    }

    /// The cooldown window (seconds) that goes with a cutoff.
    pub fn window(&self, cutoff: Option<u64>) -> (r: Option<u64>)
        ensures
            r == self@.window(cutoff),
    {
        match cutoff {
            Some(_) => Some(self.cooldown.as_secs()),
            None => None,
        }
    }
}

// Laws.

/// A crate on the override list is never age-gated, whatever letter case the
/// list or the request uses.
pub proof fn listed_crates_are_exempt(
    config: ConfigView,
    list: Seq<char>,
    i: int,
    name: Seq<char>,
    now: Option<u64>,
)
    requires
        config.overrides == helpers::override_set(list),
        0 <= i < text::pieces(list, helpers::list_separators()).len(),
        name.len() > 0,
        text::lowered(name) == text::lowered(
            text::trimmed(text::pieces(list, helpers::list_separators())[i]),
        ),
    ensures
        config.cutoff_at(name, now) is None,
{
    let part = text::trimmed(text::pieces(list, helpers::list_separators())[i]);
    assert(text::lowered(name).len() == name.len());
    assert(text::lowered(part).len() == part.len());
    assert(helpers::listed(list, i, text::lowered(name)));
}

/// A crate that is not on the list is age-gated whenever there is a window and
/// the clock stands after 1970, `window` seconds back from the present.
pub proof fn other_crates_are_gated(config: ConfigView, name: Seq<char>, now: u64)
    requires
        !config.exempt(name),
        config.cooldown.secs() > 0,
    ensures
        config.cutoff_at(name, Some(now)) is Some,
        config.cutoff_at(name, Some(now))->0 <= now,
        now >= config.cooldown.secs() ==> config.cutoff_at(name, Some(now))->0
            + config.cooldown.secs() == now,
{
}

/// A crate that a list does not name is age-gated: unless the lower-cased name
/// is the trimmed, lower-cased form of some part of the list, the cutoff is
/// `window` seconds back from the present, whatever else is on the list (a
/// listed `tokio` says nothing of `tokio-util`).
pub proof fn unlisted_crates_have_the_cutoff(
    config: ConfigView,
    list: Seq<char>,
    parts: Seq<Seq<char>>,
    name: Seq<char>,
    now: u64,
)
    requires
        config.overrides == helpers::override_set(list),
        config.cooldown.secs() > 0,
        parts == text::pieces(list, seq![',', ' ', '\t', '\n']),
        forall|i: int|
            0 <= i < parts.len() ==> text::lowered(text::trimmed(#[trigger] parts[i]))
                != text::lowered(name),
    ensures
        now >= config.cooldown.secs() ==> config.cutoff_at(name, Some(now)) == Some(
            (now - config.cooldown.secs()) as u64,
        ),
        now < config.cooldown.secs() ==> config.cutoff_at(name, Some(now)) == Some(0u64),
{
    assert(helpers::list_separators() =~= seq![',', ' ', '\t', '\n']);
    let low = text::lowered(name);
    if config.overrides.contains(low) {
        let i = choose|i: int| helpers::listed(list, i, low);
        assert(text::lowered(text::trimmed(parts[i])) == low);
    }
}

/// The cutoff of every crate, from the set of exempt names, the window and the
/// clock: a name is exempt if and only if its lower-cased form is in the set,
/// character for character.
pub proof fn cutoffs_follow_the_listed_names(config: ConfigView, name: Seq<char>, now: u64)
    ensures
        config.cutoff_at(name, None) is None,
        config.overrides.contains(text::lowered(name)) ==> config.cutoff_at(name, Some(now))
            is None,
        config.cooldown.secs() == 0 ==> config.cutoff_at(name, Some(now)) is None,
        !config.overrides.contains(text::lowered(name)) && 0 < config.cooldown.secs() <= now
            ==> config.cutoff_at(name, Some(now)) == Some((now - config.cooldown.secs()) as u64),
        !config.overrides.contains(text::lowered(name)) && now < config.cooldown.secs()
            ==> config.cutoff_at(name, Some(now)) == Some(0u64),
        config.exempt(name) <==> config.overrides.contains(text::lowered(name)),
{
}

/// Letter case is all that a name is not held to: two names with the same
/// lower-cased form have the same cutoff.
pub proof fn letter_case_of_names_does_not_matter(
    config: ConfigView,
    a: Seq<char>,
    b: Seq<char>,
    now: Option<u64>,
)
    requires
        text::lowered(a) == text::lowered(b),
    ensures
        config.cutoff_at(a, now) == config.cutoff_at(b, now),
{
}

/// A cutoff that was read off the clock is the one of that reading: for a
/// crate that is not exempt, `window` seconds before it and no other time.
pub proof fn read_cutoffs_are_one_window_back(
    config: ConfigView,
    name: Seq<char>,
    cutoff: Option<u64>,
)
    requires
        config.cutoff_read(name, cutoff),
    ensures
        config.overrides.contains(text::lowered(name)) || config.cooldown.secs() == 0 ==> cutoff
            is None,
        !config.overrides.contains(text::lowered(name)) && config.cooldown.secs() > 0
            ==> exists|now: Option<u64>| #[trigger]
            time::clock_reads(now) && match now {
                Some(secs) => cutoff == Some(
                    (if secs >= config.cooldown.secs() {
                        secs - config.cooldown.secs()
                    } else {
                        0
                    }) as u64,
                ),
                None => cutoff is None,
            },
{
    let now = choose|now: Option<u64>|
        time::clock_reads(now) && cutoff == #[trigger] config.cutoff_at(name, now);
    assert(time::clock_reads(now));
}

/// The window that goes with a cutoff is the configured one; there is none
/// without a cutoff.
pub proof fn windows_go_with_cutoffs(config: ConfigView, cutoff: u64)
    ensures
        config.window(Some(cutoff)) == Some(config.cooldown.secs()),
        config.window(None) is None,
{
}

/// Without a window nothing is age-gated.
pub proof fn zero_window_disables_filtering(
    config: ConfigView,
    name: Seq<char>,
    cutoff: Option<u64>,
)
    requires
        config.cooldown.secs() == 0,
        config.cutoff_possible(name, cutoff),
    ensures
        cutoff is None,
{
}

} // verus!
